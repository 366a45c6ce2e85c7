//! Rendering of the persisted artifacts: the build-tool configuration
//! declaring every known symbol, the generated constants file, the
//! configuration template, and the flag string handed to the compiler
//! through the environment.
//!
//! Each rendering is pinned to a spec-level function of its inputs, so
//! the artifacts are byte-deterministic: unchanged inputs give unchanged
//! output.  Name lists are sorted before rendering where the artifact
//! must be stable under manifest discovery order.

use vstd::prelude::*;

use crate::config;
use crate::digits;
use crate::strops;
use crate::synth::{ConstDecl, ConstValue, SpecConst, SpecConstVal, spec_consts};
use crate::workspace::{SpecCrate, spec_all_configs};

verus! {

/// Lexicographic order on character sequences, by code point, with a
/// prefix ordered before its extensions.
pub open spec fn lex_le(a: Seq<char>, b: Seq<char>) -> bool
    decreases a.len(),
{
    if a.len() == 0 {
        true
    } else if b.len() == 0 {
        false
    } else if a[0] == b[0] {
        lex_le(a.drop_first(), b.drop_first())
    } else {
        a[0] < b[0]
    }
}

/// Skipping a common prefix leaves the order unchanged.
proof fn lemma_lex_le_skip(a: Seq<char>, b: Seq<char>, i: int)
    requires
        0 <= i <= a.len(),
        i <= b.len(),
        forall|j: int| 0 <= j < i ==> a[j] == b[j],
    ensures
        lex_le(a, b) == lex_le(a.skip(i), b.skip(i)),
    decreases i,
{
    if i > 0 {
        assert(a.len() > 0 && b.len() > 0 && a[0] == b[0]);
        let a1 = a.drop_first();
        let b1 = b.drop_first();
        assert forall|j: int| 0 <= j < i - 1 implies a1[j] == b1[j] by {
            assert(a1[j] == a[j + 1] && b1[j] == b[j + 1]);
        }
        lemma_lex_le_skip(a1, b1, i - 1);
        assert(a1.skip(i - 1) =~= a.skip(i));
        assert(b1.skip(i - 1) =~= b.skip(i));
    } else {
        assert(a.skip(0) =~= a);
        assert(b.skip(0) =~= b);
    }
}

/// Lexicographic comparison of string slices.
pub fn str_le(a: &str, b: &str) -> (r: bool)
    ensures
        r == lex_le(a@, b@),
{
    let alen = a.unicode_len();
    let blen = b.unicode_len();
    let mut i: usize = 0;
    while i < alen && i < blen
        invariant
            0 <= i <= alen,
            i <= blen,
            alen == a@.len(),
            blen == b@.len(),
            forall|j: int| 0 <= j < i ==> a@[j] == b@[j],
        decreases alen - i,
    {
        let ca = a.get_char(i);
        let cb = b.get_char(i);
        if ca != cb {
            proof {
                lemma_lex_le_skip(a@, b@, i as int);
                assert(a@.skip(i as int)[0] == ca && b@.skip(i as int)[0] == cb);
            }
            return ca < cb;
        }
        i += 1;
    }
    proof {
        lemma_lex_le_skip(a@, b@, i as int);
    }
    alen <= blen
}

/// The order is total: two sequences always compare one way or the
/// other, and both ways only when they are equal.
proof fn lemma_lex_le_total(a: Seq<char>, b: Seq<char>)
    ensures
        lex_le(a, b) || lex_le(b, a),
        (lex_le(a, b) && lex_le(b, a)) ==> a == b,
    decreases a.len(),
{
    if a.len() > 0 && b.len() > 0 {
        if a[0] == b[0] {
            lemma_lex_le_total(a.drop_first(), b.drop_first());
            if lex_le(a, b) && lex_le(b, a) {
                assert(a.drop_first() == b.drop_first());
                assert forall|i: int| 0 <= i < a.len() implies a[i] == b[i] by {
                    if i > 0 {
                        assert(a[i] == a.drop_first()[i - 1]);
                        assert(b[i] == b.drop_first()[i - 1]);
                    }
                }
                assert(a =~= b);
            }
        } else {
            assert(a[0] < b[0] || b[0] < a[0]);
        }
    } else if lex_le(a, b) && lex_le(b, a) {
        assert(a =~= b);
    }
}

/// The order is transitive.
proof fn lemma_lex_le_trans(a: Seq<char>, b: Seq<char>, c: Seq<char>)
    requires
        lex_le(a, b),
        lex_le(b, c),
    ensures
        lex_le(a, c),
    decreases a.len(),
{
    if a.len() > 0 && b.len() > 0 && c.len() > 0 {
        if a[0] == b[0] && b[0] == c[0] {
            lemma_lex_le_trans(a.drop_first(), b.drop_first(), c.drop_first());
        }
    }
}

/// `x` placed at its position in an already sorted sequence.
pub open spec fn spec_insert_sorted(s: Seq<Seq<char>>, x: Seq<char>) -> Seq<Seq<char>>
    decreases s.len(),
{
    if s.len() == 0 {
        seq![x]
    } else if lex_le(x, s[0]) {
        seq![x] + s
    } else {
        seq![s[0]] + spec_insert_sorted(s.drop_first(), x)
    }
}

/// Insertion sort of the whole input, element by element.
pub open spec fn spec_sort_from(acc: Seq<Seq<char>>, rest: Seq<Seq<char>>) -> Seq<Seq<char>>
    decreases rest.len(),
{
    if rest.len() == 0 {
        acc
    } else {
        spec_sort_from(spec_insert_sorted(acc, rest[0]), rest.drop_first())
    }
}

/// The input in lexicographic order.
pub open spec fn spec_sort(s: Seq<Seq<char>>) -> Seq<Seq<char>> {
    spec_sort_from(Seq::empty(), s)
}

/// Non-decreasing under `lex_le`.
pub open spec fn lex_sorted(s: Seq<Seq<char>>) -> bool {
    forall|i: int, j: int| 0 <= i < j < s.len() ==> lex_le(s[i], s[j])
}

/// Inserting at the found position is the same as splicing the element
/// between the kept prefix and the rest.
proof fn lemma_insert_sorted_at(s: Seq<Seq<char>>, x: Seq<char>, i: int)
    requires
        0 <= i <= s.len(),
        forall|j: int| 0 <= j < i ==> !lex_le(x, s[j]),
        i < s.len() ==> lex_le(x, s[i]),
    ensures
        spec_insert_sorted(s, x) =~= s.subrange(0, i) + seq![x] + s.subrange(i, s.len() as int),
    decreases s.len(),
{
    if s.len() == 0 {
        assert(spec_insert_sorted(s, x) =~= seq![x]);
    } else if i == 0 {
        assert(lex_le(x, s[0]) || s.len() == 0);
    } else {
        let rest = s.drop_first();
        assert forall|j: int| 0 <= j < i - 1 implies !lex_le(x, rest[j]) by {
            assert(rest[j] == s[j + 1]);
        }
        if i - 1 < rest.len() {
            assert(rest[i - 1] == s[i]);
        }
        lemma_insert_sorted_at(rest, x, i - 1);
        assert(rest.subrange(0, i - 1) =~= s.subrange(1, i));
        assert(rest.subrange(i - 1, rest.len() as int) =~= s.subrange(i, s.len() as int));
    }
}

/// Inserts `x` at its sorted position.
fn insert_string_sorted(v: &mut Vec<String>, x: String)
    ensures
        final(v).deep_view() == spec_insert_sorted(old(v).deep_view(), x@),
{
    let ghost dv = v.deep_view();
    let mut i: usize = 0;
    while i < v.len() && !str_le(x.as_str(), v[i].as_str())
        invariant
            0 <= i <= v.len(),
            dv == v.deep_view(),
            dv == old(v).deep_view(),
            dv.len() == v@.len(),
            forall|j: int| 0 <= j < i ==> !lex_le(x@, dv[j]),
        decreases v.len() - i,
    {
        i += 1;
    }
    proof {
        lemma_insert_sorted_at(dv, x@, i as int);
    }
    v.insert(i, x);
    proof {
        assert(v.deep_view() =~= dv.subrange(0, i as int) + seq![x@] + dv.subrange(
            i as int,
            dv.len() as int,
        ));
    }
}

/// Sorts a list of names lexicographically.
pub fn sort_strings(v: &Vec<String>) -> (r: Vec<String>)
    ensures
        r.deep_view() == spec_sort(v.deep_view()),
{
    let ghost dv = v.deep_view();
    let mut out: Vec<String> = Vec::new();
    proof {
        assert(out.deep_view() =~= Seq::<Seq<char>>::empty());
        assert(dv.skip(0) =~= dv);
    }
    let mut i: usize = 0;
    while i < v.len()
        invariant
            0 <= i <= v.len(),
            dv == v.deep_view(),
            dv.len() == v@.len(),
            spec_sort_from(out.deep_view(), dv.skip(i as int)) == spec_sort(dv),
        decreases v.len() - i,
    {
        let ghost rem = dv.skip(i as int);
        proof {
            assert(rem[0] == dv[i as int]);
            assert(rem.drop_first() =~= dv.skip(i as int + 1));
        }
        insert_string_sorted(&mut out, v[i].clone());
        i += 1;
    }
    proof {
        assert(dv.skip(v@.len() as int) =~= Seq::<Seq<char>>::empty());
    }
    out
}

/// Inserting into a sorted sequence keeps it sorted.
proof fn lemma_insert_sorted_keeps_sorted(s: Seq<Seq<char>>, x: Seq<char>)
    requires
        lex_sorted(s),
    ensures
        lex_sorted(spec_insert_sorted(s, x)),
    decreases s.len(),
{
    if s.len() == 0 {
    } else if lex_le(x, s[0]) {
        let r = seq![x] + s;
        assert forall|i: int, j: int| 0 <= i < j < r.len() implies lex_le(r[i], r[j]) by {
            if i == 0 {
                assert(r[j] == s[j - 1]);
                if j > 1 {
                    lemma_lex_le_trans(x, s[0], s[j - 1]);
                }
            } else {
                assert(r[i] == s[i - 1] && r[j] == s[j - 1]);
            }
        }
    } else {
        let rest = s.drop_first();
        assert(lex_sorted(rest)) by {
            assert forall|i: int, j: int| 0 <= i < j < rest.len() implies lex_le(
                rest[i],
                rest[j],
            ) by {
                assert(rest[i] == s[i + 1] && rest[j] == s[j + 1]);
            }
        }
        lemma_insert_sorted_keeps_sorted(rest, x);
        let ri = spec_insert_sorted(rest, x);
        let r = seq![s[0]] + ri;
        lemma_lex_le_total(x, s[0]);
        assert(lex_le(s[0], x));
        assert forall|k: int| 0 <= k < rest.len() implies lex_le(s[0], rest[k]) by {
            assert(rest[k] == s[k + 1]);
        }
        lemma_insert_sorted_lower_bound(rest, x, s[0]);
        assert forall|i: int, j: int| 0 <= i < j < r.len() implies lex_le(r[i], r[j]) by {
            if i > 0 {
                assert(r[i] == ri[i - 1] && r[j] == ri[j - 1]);
            } else {
                assert(r[j] == ri[j - 1]);
            }
        }
    }
}

proof fn lemma_insert_sorted_lower_bound(s: Seq<Seq<char>>, x: Seq<char>, h: Seq<char>)
    requires
        lex_le(h, x),
        forall|k: int| 0 <= k < s.len() ==> lex_le(h, s[k]),
    ensures
        forall|k: int|
            0 <= k < spec_insert_sorted(s, x).len() ==> lex_le(h, spec_insert_sorted(s, x)[k]),
    decreases s.len(),
{
    if s.len() == 0 {
    } else if lex_le(x, s[0]) {
    } else {
        let rest = s.drop_first();
        assert forall|k: int| 0 <= k < rest.len() implies lex_le(h, rest[k]) by {
            assert(rest[k] == s[k + 1]);
        }
        lemma_insert_sorted_lower_bound(rest, x, h);
        let r = seq![s[0]] + spec_insert_sorted(rest, x);
        assert forall|k: int| 0 <= k < r.len() implies lex_le(h, r[k]) by {
            if k > 0 {
                assert(r[k] == spec_insert_sorted(rest, x)[k - 1]);
            }
        }
    }
}

/// The sorting law: the sorted list is non-decreasing under `lex_le`.
pub proof fn lemma_sort_sorted(s: Seq<Seq<char>>)
    ensures
        lex_sorted(spec_sort(s)),
{
    lemma_sort_from_sorted(Seq::empty(), s);
}

proof fn lemma_sort_from_sorted(acc: Seq<Seq<char>>, rest: Seq<Seq<char>>)
    requires
        lex_sorted(acc),
    ensures
        lex_sorted(spec_sort_from(acc, rest)),
    decreases rest.len(),
{
    if rest.len() > 0 {
        lemma_insert_sorted_keeps_sorted(acc, rest[0]);
        lemma_sort_from_sorted(spec_insert_sorted(acc, rest[0]), rest.drop_first());
    }
}

proof fn lemma_insert_sorted_membership(s: Seq<Seq<char>>, x: Seq<char>)
    ensures
        forall|y: Seq<char>|
            #[trigger] spec_insert_sorted(s, x).contains(y) <==> (s.contains(y) || y == x),
    decreases s.len(),
{
    if s.len() == 0 {
        assert forall|y: Seq<char>|
            #[trigger] spec_insert_sorted(s, x).contains(y) <==> (s.contains(y) || y == x) by {
            if y == x {
                assert(spec_insert_sorted(s, x)[0] == x);
            }
        }
    } else if lex_le(x, s[0]) {
        let r = seq![x] + s;
        assert forall|y: Seq<char>| #[trigger] r.contains(y) <==> (s.contains(y) || y == x) by {
            if r.contains(y) {
                let i = choose|i: int| 0 <= i < r.len() && r[i] == y;
                if i > 0 {
                    assert(s[i - 1] == y);
                }
            }
            if s.contains(y) {
                let i = choose|i: int| 0 <= i < s.len() && s[i] == y;
                assert(r[i + 1] == y);
            }
            if y == x {
                assert(r[0] == y);
            }
        }
    } else {
        let rest = s.drop_first();
        lemma_insert_sorted_membership(rest, x);
        let ri = spec_insert_sorted(rest, x);
        let r = seq![s[0]] + ri;
        assert forall|y: Seq<char>| #[trigger] r.contains(y) <==> (s.contains(y) || y == x) by {
            if r.contains(y) {
                let i = choose|i: int| 0 <= i < r.len() && r[i] == y;
                if i == 0 {
                    assert(s[0] == y);
                } else {
                    assert(ri[i - 1] == y);
                    assert(ri.contains(y));
                    if rest.contains(y) {
                        let j = choose|j: int| 0 <= j < rest.len() && rest[j] == y;
                        assert(s[j + 1] == y);
                    }
                }
            }
            if s.contains(y) {
                let i = choose|i: int| 0 <= i < s.len() && s[i] == y;
                if i == 0 {
                    assert(r[0] == y);
                } else {
                    assert(rest[i - 1] == y);
                    assert(ri.contains(y));
                    let j = choose|j: int| 0 <= j < ri.len() && ri[j] == y;
                    assert(r[j + 1] == y);
                }
            }
            if y == x {
                assert(ri.contains(y));
                let j = choose|j: int| 0 <= j < ri.len() && ri[j] == y;
                assert(r[j + 1] == y);
            }
        }
    }
}

proof fn lemma_sort_from_membership(acc: Seq<Seq<char>>, rest: Seq<Seq<char>>)
    ensures
        forall|y: Seq<char>|
            #[trigger] spec_sort_from(acc, rest).contains(y) <==> (acc.contains(y)
                || rest.contains(y)),
    decreases rest.len(),
{
    if rest.len() > 0 {
        let acc2 = spec_insert_sorted(acc, rest[0]);
        lemma_insert_sorted_membership(acc, rest[0]);
        lemma_sort_from_membership(acc2, rest.drop_first());
        let tail = rest.drop_first();
        assert(spec_sort_from(acc, rest) == spec_sort_from(acc2, tail));
        assert forall|y: Seq<char>|
            #[trigger] spec_sort_from(acc, rest).contains(y) <==> (acc.contains(y)
                || rest.contains(y)) by {
            assert(spec_sort_from(acc2, tail).contains(y) <==> (acc2.contains(y) || tail.contains(
                y,
            )));
            assert(acc2.contains(y) <==> (acc.contains(y) || y == rest[0]));
            if tail.contains(y) {
                let i = choose|i: int| 0 <= i < tail.len() && tail[i] == y;
                assert(rest[i + 1] == y);
            }
            if rest.contains(y) && y != rest[0] {
                let i = choose|i: int| 0 <= i < rest.len() && rest[i] == y;
                if i > 0 {
                    assert(tail[i - 1] == y);
                }
            }
            if y == rest[0] {
                assert(rest[0] == y);
            }
        }
    }
}

/// The sorting law, second half: sorting neither loses nor invents a
/// name.
pub proof fn lemma_sort_membership(s: Seq<Seq<char>>)
    ensures
        forall|y: Seq<char>| #[trigger] spec_sort(s).contains(y) <==> s.contains(y),
{
    lemma_sort_from_membership(Seq::empty(), s);
}

/// One `--check-cfg` declaration line per symbol name.
pub open spec fn spec_check_cfg_lines(names: Seq<Seq<char>>) -> Seq<char>
    decreases names.len(),
{
    if names.len() == 0 {
        Seq::empty()
    } else {
        "    \"--check-cfg=cfg("@ + names[0] + ")\",\n"@ + spec_check_cfg_lines(
            names.drop_first(),
        )
    }
}

/// The full text of the build-tool configuration artifact.
pub open spec fn spec_cargo_config(names: Seq<Seq<char>>) -> Seq<char> {
    "# cargo-kbuild check-cfg declarations\n# This file declares every CONFIG_* conditional-compilation symbol\n# It is rewritten on every build; do not edit or commit it\n\n[build]\nrustflags = [\n"@
        + spec_check_cfg_lines(names) + "]\n"@
}

/// Renders the build-tool configuration that declares every known
/// symbol, sorted for deterministic output.
pub fn render_cargo_config(configs: &Vec<String>) -> (r: String)
    ensures
        r@ == spec_cargo_config(spec_sort(configs.deep_view())),
{
    let sorted = sort_strings(configs);
    let ghost names = sorted.deep_view();
    let mut out = String::new();
    out.append(
        "# cargo-kbuild check-cfg declarations\n# This file declares every CONFIG_* conditional-compilation symbol\n# It is rewritten on every build; do not edit or commit it\n\n[build]\nrustflags = [\n",
    );
    proof {
        assert(names.skip(0) =~= names);
        assert(out@
            =~= "# cargo-kbuild check-cfg declarations\n# This file declares every CONFIG_* conditional-compilation symbol\n# It is rewritten on every build; do not edit or commit it\n\n[build]\nrustflags = [\n"@);
    }
    let mut i: usize = 0;
    while i < sorted.len()
        invariant
            0 <= i <= sorted.len(),
            names == sorted.deep_view(),
            names == spec_sort(configs.deep_view()),
            names.len() == sorted@.len(),
            out@ + spec_check_cfg_lines(names.skip(i as int)) + "]\n"@ == spec_cargo_config(
                names,
            ),
        decreases sorted.len() - i,
    {
        let ghost rem = names.skip(i as int);
        proof {
            assert(rem[0] == names[i as int]);
            assert(rem.drop_first() =~= names.skip(i as int + 1));
        }
        let ghost before = out@;
        out.append("    \"--check-cfg=cfg(");
        out.append(sorted[i].as_str());
        out.append(")\",\n");
        proof {
            assert(out@ + spec_check_cfg_lines(names.skip(i as int + 1)) =~= before + (
            "    \"--check-cfg=cfg("@ + rem[0] + ")\",\n"@ + spec_check_cfg_lines(
                rem.drop_first(),
            )));
        }
        i += 1;
    }
    out.append("]\n");
    proof {
        assert(names.skip(sorted@.len() as int) =~= Seq::<Seq<char>>::empty());
        assert(out@ =~= spec_cargo_config(names));
    }
    out
}

/// The text of one generated constant declaration.
pub open spec fn spec_const_decl(c: SpecConst) -> Seq<char> {
    match c.value {
        SpecConstVal::Int(n) => "#[allow(dead_code)]\npub const "@ + c.name + ": i32 = "@
            + digits::spec_render_int(n) + ";\n\n"@,
        SpecConstVal::Text(s) => "#[allow(dead_code)]\npub const "@ + c.name + ": &str = \""@ + s
            + "\";\n\n"@,
        SpecConstVal::Uint(n) => "#[allow(dead_code)]\npub const "@ + c.name + ": usize = "@
            + digits::spec_render_nat(n) + ";\n\n"@,
    }
}

/// The declarations of all constants, in order.
pub open spec fn spec_const_decls(cs: Seq<SpecConst>) -> Seq<char>
    decreases cs.len(),
{
    if cs.len() == 0 {
        Seq::empty()
    } else {
        spec_const_decl(cs[0]) + spec_const_decls(cs.drop_first())
    }
}

/// The full text of the generated constants artifact.
pub open spec fn spec_config_rs(cs: Seq<SpecConst>) -> Seq<char> {
    "// Constants derived from .config by cargo-kbuild\n// This file is rewritten on every build; do not edit\n\n"@
        + spec_const_decls(cs)
}

/// Renders the generated constants file: one typed declaration per
/// constant, in table order.
pub fn render_config_rs(consts: &Vec<ConstDecl>) -> (r: String)
    ensures
        r@ == spec_config_rs(consts.deep_view()),
{
    let ghost cs = consts.deep_view();
    let mut out = String::new();
    out.append(
        "// Constants derived from .config by cargo-kbuild\n// This file is rewritten on every build; do not edit\n\n",
    );
    proof {
        assert(cs.skip(0) =~= cs);
        assert(out@
            =~= "// Constants derived from .config by cargo-kbuild\n// This file is rewritten on every build; do not edit\n\n"@);
    }
    let mut i: usize = 0;
    while i < consts.len()
        invariant
            0 <= i <= consts.len(),
            cs == consts.deep_view(),
            cs.len() == consts@.len(),
            out@ + spec_const_decls(cs.skip(i as int)) == spec_config_rs(cs),
        decreases consts.len() - i,
    {
        let ghost rem = cs.skip(i as int);
        proof {
            assert(rem[0] == cs[i as int]);
            assert(rem.drop_first() =~= cs.skip(i as int + 1));
        }
        let ghost before = out@;
        let c = &consts[i];
        out.append("#[allow(dead_code)]\npub const ");
        out.append(c.name.as_str());
        match &c.value {
            ConstValue::Int(n) => {
                out.append(": i32 = ");
                let rendered = digits::render_i32(*n);
                out.append(rendered.as_str());
                out.append(";\n\n");
            },
            ConstValue::Text(s) => {
                out.append(": &str = \"");
                out.append(s.as_str());
                out.append("\";\n\n");
            },
            ConstValue::Uint(n) => {
                out.append(": usize = ");
                let rendered = digits::render_usize(*n);
                out.append(rendered.as_str());
                out.append(";\n\n");
            },
        }
        proof {
            assert(out@ =~= before + spec_const_decl(rem[0]));
            assert(out@ + spec_const_decls(cs.skip(i as int + 1)) =~= before + (spec_const_decl(
                rem[0],
            ) + spec_const_decls(rem.drop_first())));
        }
        i += 1;
    }
    proof {
        assert(cs.skip(consts@.len() as int) =~= Seq::<SpecConst>::empty());
    }
    out
}

/// One commented-out template line per symbol name.
pub open spec fn spec_template_lines(names: Seq<Seq<char>>) -> Seq<char>
    decreases names.len(),
{
    if names.len() == 0 {
        Seq::empty()
    } else {
        "# "@ + names[0] + "=y\n"@ + spec_template_lines(names.drop_first())
    }
}

/// The full text of the configuration template: every declared symbol,
/// sorted, disabled by default.
pub open spec fn spec_config_template(names: Seq<Seq<char>>) -> Seq<char> {
    "# Kernel configuration file\n# Edit this file to enable or disable features\n\n"@
        + spec_template_lines(names)
}

/// Renders the configuration template offered by the `init` command.
pub fn render_config_template(configs: &Vec<String>) -> (r: String)
    ensures
        r@ == spec_config_template(spec_sort(configs.deep_view())),
{
    let sorted = sort_strings(configs);
    let ghost names = sorted.deep_view();
    let mut out = String::new();
    out.append("# Kernel configuration file\n# Edit this file to enable or disable features\n\n");
    proof {
        assert(names.skip(0) =~= names);
        assert(out@
            =~= "# Kernel configuration file\n# Edit this file to enable or disable features\n\n"@);
    }
    let mut i: usize = 0;
    while i < sorted.len()
        invariant
            0 <= i <= sorted.len(),
            names == sorted.deep_view(),
            names == spec_sort(configs.deep_view()),
            names.len() == sorted@.len(),
            out@ + spec_template_lines(names.skip(i as int)) == spec_config_template(names),
        decreases sorted.len() - i,
    {
        let ghost rem = names.skip(i as int);
        proof {
            assert(rem[0] == names[i as int]);
            assert(rem.drop_first() =~= names.skip(i as int + 1));
        }
        let ghost before = out@;
        out.append("# ");
        out.append(sorted[i].as_str());
        out.append("=y\n");
        proof {
            assert(out@ + spec_template_lines(names.skip(i as int + 1)) =~= before + ("# "@
                + rem[0] + "=y\n"@ + spec_template_lines(rem.drop_first())));
        }
        i += 1;
    }
    proof {
        assert(names.skip(sorted@.len() as int) =~= Seq::<Seq<char>>::empty());
    }
    out
}

/// A flag joined onto the accumulated flag string with a single space.
pub open spec fn spec_add_flag(acc: Seq<char>, item: Seq<char>) -> Seq<char> {
    if acc.len() == 0 {
        item
    } else {
        acc + " "@ + item
    }
}

/// The `--check-cfg` flags of every declared symbol, joined in order.
pub open spec fn spec_add_check_cfg_flags(acc: Seq<char>, names: Seq<Seq<char>>) -> Seq<char>
    decreases names.len(),
{
    if names.len() == 0 {
        acc
    } else {
        spec_add_check_cfg_flags(
            spec_add_flag(acc, "--check-cfg=cfg("@ + names[0] + ")"@),
            names.drop_first(),
        )
    }
}

/// The `--cfg` flags of every active symbol, joined in order.
pub open spec fn spec_add_cfg_flags(acc: Seq<char>, names: Seq<Seq<char>>) -> Seq<char>
    decreases names.len(),
{
    if names.len() == 0 {
        acc
    } else {
        spec_add_cfg_flags(spec_add_flag(acc, "--cfg "@ + names[0]), names.drop_first())
    }
}

/// The compiler flag string: a `--check-cfg` declaration per known
/// symbol, then a `--cfg` per active symbol, space-separated.
pub open spec fn spec_rustflags(all: Seq<Seq<char>>, feats: Seq<Seq<char>>) -> Seq<char> {
    spec_add_cfg_flags(spec_add_check_cfg_flags(Seq::empty(), all), feats)
}

/// Renders the flag string handed to the compiler through the
/// environment channel.
pub fn render_rustflags(all_configs: &Vec<String>, features: &Vec<String>) -> (r: String)
    ensures
        r@ == spec_rustflags(all_configs.deep_view(), features.deep_view()),
{
    let ghost all = all_configs.deep_view();
    let ghost feats = features.deep_view();
    let mut out = String::new();
    proof {
        assert(out@ =~= Seq::<char>::empty());
        assert(all.skip(0) =~= all);
    }
    let mut i: usize = 0;
    while i < all_configs.len()
        invariant
            0 <= i <= all_configs.len(),
            all == all_configs.deep_view(),
            feats == features.deep_view(),
            all.len() == all_configs@.len(),
            spec_add_check_cfg_flags(out@, all.skip(i as int)) == spec_add_check_cfg_flags(
                Seq::empty(),
                all,
            ),
        decreases all_configs.len() - i,
    {
        let ghost rem = all.skip(i as int);
        proof {
            assert(rem[0] == all[i as int]);
            assert(rem.drop_first() =~= all.skip(i as int + 1));
        }
        let ghost before = out@;
        if !out.as_str().is_empty() {
            out.append(" ");
        }
        out.append("--check-cfg=cfg(");
        out.append(all_configs[i].as_str());
        out.append(")");
        proof {
            assert(out@ =~= spec_add_flag(before, "--check-cfg=cfg("@ + rem[0] + ")"@));
        }
        i += 1;
    }
    proof {
        assert(all.skip(all_configs@.len() as int) =~= Seq::<Seq<char>>::empty());
        assert(feats.skip(0) =~= feats);
    }
    let mut j: usize = 0;
    while j < features.len()
        invariant
            0 <= j <= features.len(),
            all == all_configs.deep_view(),
            feats == features.deep_view(),
            feats.len() == features@.len(),
            spec_add_cfg_flags(out@, feats.skip(j as int)) == spec_rustflags(all, feats),
        decreases features.len() - j,
    {
        let ghost rem = feats.skip(j as int);
        proof {
            assert(rem[0] == feats[j as int]);
            assert(rem.drop_first() =~= feats.skip(j as int + 1));
        }
        let ghost before = out@;
        if !out.as_str().is_empty() {
            out.append(" ");
        }
        out.append("--cfg ");
        out.append(features[j].as_str());
        proof {
            assert(out@ =~= spec_add_flag(before, "--cfg "@ + rem[0]));
        }
        j += 1;
    }
    proof {
        assert(feats.skip(features@.len() as int) =~= Seq::<Seq<char>>::empty());
    }
    out
}

/// The two persisted artifacts as functions of the raw inputs alone:
/// the generated constants file and the build-tool configuration.
pub open spec fn spec_artifacts(text: Seq<char>, ws: Seq<SpecCrate>) -> (Seq<char>, Seq<char>) {
    (
        spec_config_rs(spec_consts(config::spec_parse(text))),
        spec_cargo_config(spec_sort(spec_all_configs(ws))),
    )
}

/// The idempotence law.  Both persisted artifacts are functions of the
/// configuration text and the workspace alone, so running the pipeline
/// twice on unchanged inputs yields byte-identical artifacts.
pub proof fn lemma_pipeline_idempotent(
    text1: Seq<char>,
    ws1: Seq<SpecCrate>,
    text2: Seq<char>,
    ws2: Seq<SpecCrate>,
)
    requires
        text1 == text2,
        ws1 == ws2,
    ensures
        spec_artifacts(text1, ws1) == spec_artifacts(text2, ws2),
{
}

} // verus!
