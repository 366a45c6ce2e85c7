//! The directive synthesizer: projects the parsed symbol table and the
//! validated workspace into the directive bundle handed to the build
//! tool.
//!
//! Four projections are made.  `all_symbol_names` lists every symbol the
//! manifests declare, for the compiler's strict symbol-declaration mode.
//! `active_symbol_names` lists the configuration entries whose value
//! activates them (`y` or `m`).  `typed_constants` carries one typed
//! constant per non-boolean entry.  `activation_list` restricts the
//! active names to those the manifests declare.

use vstd::prelude::*;

use crate::config::{SpecSym, SymbolTable, contains_name, index_of_name, lookup, wf_table};
use crate::config;
use crate::digits;
use crate::strops;
use crate::workspace::{
    SpecCrate, Workspace, collect_all_configs, declares_config, lemma_all_configs_membership,
    spec_all_configs,
};

verus! {

/// The value is one of the three booleans `y`, `m`, `n`.
pub open spec fn is_bool_value(v: Seq<char>) -> bool {
    v == "y"@ || v == "m"@ || v == "n"@
}

/// The value activates its symbol: enabled (`y`) or module (`m`).
pub open spec fn is_active_value(v: Seq<char>) -> bool {
    v == "y"@ || v == "m"@
}

/// The entry contributes to `active_symbol_names`.
pub open spec fn is_active_sym(s: SpecSym) -> bool {
    strops::spec_starts_with(s.name, "CONFIG_"@) && is_active_value(s.value)
}

/// The names of the active entries, in table order.
pub open spec fn spec_active_names(tbl: Seq<SpecSym>) -> Seq<Seq<char>>
    decreases tbl.len(),
{
    if tbl.len() == 0 {
        Seq::empty()
    } else {
        let rest = spec_active_names(tbl.drop_first());
        if is_active_sym(tbl[0]) {
            seq![tbl[0].name] + rest
        } else {
            rest
        }
    }
}

/// Whether the value activates its symbol.
pub fn value_is_active(v: &str) -> (r: bool)
    ensures
        r == is_active_value(v@),
{
    strops::str_eq(v, "y") || strops::str_eq(v, "m")
}

/// Whether the value is one of the three booleans.
pub fn value_is_bool(v: &str) -> (r: bool)
    ensures
        r == is_bool_value(v@),
{
    strops::str_eq(v, "y") || strops::str_eq(v, "m") || strops::str_eq(v, "n")
}

/// The `CONFIG_`-prefixed keys of the symbol table whose value is `y` or
/// `m`, in table order: the features to activate.
pub fn generate_features(config: &SymbolTable) -> (r: Vec<String>)
    ensures
        r.deep_view() == spec_active_names(config@),
{
    let ghost tbl = config@;
    let mut features: Vec<String> = Vec::new();
    proof {
        assert(features.deep_view() =~= Seq::<Seq<char>>::empty());
        assert(tbl.skip(0) =~= tbl);
    }
    let mut i: usize = 0;
    while i < config.syms.len()
        invariant
            0 <= i <= config.syms.len(),
            tbl == config@,
            tbl.len() == config.syms@.len(),
            features.deep_view() + spec_active_names(tbl.skip(i as int)) == spec_active_names(
                tbl,
            ),
        decreases config.syms.len() - i,
    {
        let ghost rem = tbl.skip(i as int);
        proof {
            assert(rem[0] == tbl[i as int]);
            assert(rem.drop_first() =~= tbl.skip(i as int + 1));
        }
        let sym = &config.syms[i];
        if strops::str_starts_with(sym.name.as_str(), "CONFIG_") && value_is_active(
            sym.raw_value.as_str(),
        ) {
            let ghost before = features.deep_view();
            features.push(sym.name.clone());
            proof {
                assert(features.deep_view() =~= before.push(sym.name@));
                assert(before.push(sym.name@) + spec_active_names(tbl.skip(i as int + 1)) =~= before
                    + (seq![rem[0].name] + spec_active_names(rem.drop_first())));
            }
        }
        i += 1;
    }
    proof {
        assert(tbl.skip(config.syms@.len() as int) =~= Seq::<SpecSym>::empty());
        assert(features.deep_view() + spec_active_names(Seq::<SpecSym>::empty())
            =~= features.deep_view());
    }
    features
}

/// Mathematical image of a typed constant's value.
pub ghost enum SpecConstVal {
    Int(int),
    Text(Seq<char>),
    Uint(int),
}

/// Mathematical image of one generated constant.
pub ghost struct SpecConst {
    pub name: Seq<char>,
    pub value: SpecConstVal,
}

/// The value begins and ends with a double quote around a body.
pub open spec fn is_quoted(v: Seq<char>) -> bool {
    v.len() >= 2 && v[0] == '"' && v.last() == '"'
}

/// The text between the quotes, kept verbatim.
pub open spec fn quoted_body(v: Seq<char>) -> Seq<char> {
    v.subrange(1, v.len() - 1)
}

/// The typed constant a value projects to: a signed integer, then a
/// quoted string with the quotes stripped, then an unsigned integer,
/// tried in that order; `None` when no shape matches.
pub open spec fn spec_const_of(v: Seq<char>) -> Option<SpecConstVal> {
    if digits::is_i32_literal(v) {
        Option::Some(SpecConstVal::Int(digits::int_lit_val(v)))
    } else if is_quoted(v) {
        Option::Some(SpecConstVal::Text(quoted_body(v)))
    } else if digits::is_usize_literal(v) {
        Option::Some(SpecConstVal::Uint(digits::uint_lit_val(v)))
    } else {
        Option::None
    }
}

/// The typed value of one generated constant.
pub enum ConstValue {
    /// A signed integer constant.
    Int(i32),
    /// A string constant, quotes already stripped.
    Text(String),
    /// An unsigned integer constant.
    Uint(usize),
}

impl View for ConstValue {
    type V = SpecConstVal;

    open spec fn view(&self) -> SpecConstVal {
        match self {
            ConstValue::Int(n) => SpecConstVal::Int(*n as int),
            ConstValue::Text(s) => SpecConstVal::Text(s@),
            ConstValue::Uint(n) => SpecConstVal::Uint(*n as int),
        }
    }
}

impl DeepView for ConstValue {
    type V = SpecConstVal;

    open spec fn deep_view(&self) -> SpecConstVal {
        self.view()
    }
}

/// One generated constant declaration.
pub struct ConstDecl {
    pub name: String,
    pub value: ConstValue,
}

impl View for ConstDecl {
    type V = SpecConst;

    open spec fn view(&self) -> SpecConst {
        SpecConst { name: self.name@, value: self.value@ }
    }
}

impl DeepView for ConstDecl {
    type V = SpecConst;

    open spec fn deep_view(&self) -> SpecConst {
        self.view()
    }
}

/// Projects one raw value to its typed constant shape.
pub fn classify_value(v: &str) -> (r: Option<ConstValue>)
    ensures
        match r {
            Option::Some(c) => spec_const_of(v@) == Option::Some(c@),
            Option::None => spec_const_of(v@) is None,
        },
{
    match digits::parse_i32(v) {
        Option::Some(n) => {
            return Option::Some(ConstValue::Int(n));
        },
        Option::None => {},
    }
    let len = v.unicode_len();
    if len >= 2 && v.get_char(0) == '"' && v.get_char(len - 1) == '"' {
        let body = v.substring_char(1, len - 1);
        return Option::Some(ConstValue::Text(strops::str_to_string(body)));
    }
    match digits::parse_usize(v) {
        Option::Some(n) => Option::Some(ConstValue::Uint(n)),
        Option::None => Option::None,
    }
}

/// The entry contributes a typed constant: prefixed, not boolean, and of
/// a recognised shape.
pub open spec fn wants_const(s: SpecSym) -> bool {
    strops::spec_starts_with(s.name, "CONFIG_"@) && !is_bool_value(s.value) && spec_const_of(
        s.value,
    ) is Some
}

/// The typed constants of the table, in table order.
pub open spec fn spec_consts(tbl: Seq<SpecSym>) -> Seq<SpecConst>
    decreases tbl.len(),
{
    if tbl.len() == 0 {
        Seq::empty()
    } else {
        let rest = spec_consts(tbl.drop_first());
        if wants_const(tbl[0]) {
            seq![
                (SpecConst { name: tbl[0].name, value: spec_const_of(tbl[0].value)->Some_0 }),
            ] + rest
        } else {
            rest
        }
    }
}

/// Emits one typed constant per `CONFIG_`-prefixed, non-boolean entry
/// whose value has a recognised shape, in table order.
pub fn generate_constants(config: &SymbolTable) -> (r: Vec<ConstDecl>)
    ensures
        r.deep_view() == spec_consts(config@),
{
    let ghost tbl = config@;
    let mut consts: Vec<ConstDecl> = Vec::new();
    proof {
        assert(consts.deep_view() =~= Seq::<SpecConst>::empty());
        assert(tbl.skip(0) =~= tbl);
    }
    let mut i: usize = 0;
    while i < config.syms.len()
        invariant
            0 <= i <= config.syms.len(),
            tbl == config@,
            tbl.len() == config.syms@.len(),
            consts.deep_view() + spec_consts(tbl.skip(i as int)) == spec_consts(tbl),
        decreases config.syms.len() - i,
    {
        let ghost rem = tbl.skip(i as int);
        proof {
            assert(rem[0] == tbl[i as int]);
            assert(rem.drop_first() =~= tbl.skip(i as int + 1));
        }
        let sym = &config.syms[i];
        if strops::str_starts_with(sym.name.as_str(), "CONFIG_") && !value_is_bool(
            sym.raw_value.as_str(),
        ) {
            match classify_value(sym.raw_value.as_str()) {
                Option::Some(value) => {
                    let ghost before = consts.deep_view();
                    let decl = ConstDecl { name: sym.name.clone(), value };
                    let ghost dv = decl@;
                    consts.push(decl);
                    proof {
                        assert(consts.deep_view() =~= before.push(dv));
                        assert(before.push(dv) + spec_consts(tbl.skip(i as int + 1)) =~= before + (
                        seq![dv] + spec_consts(rem.drop_first())));
                    }
                },
                Option::None => {},
            }
        }
        i += 1;
    }
    proof {
        assert(tbl.skip(config.syms@.len() as int) =~= Seq::<SpecSym>::empty());
        assert(consts.deep_view() + spec_consts(Seq::<SpecSym>::empty()) =~= consts.deep_view());
    }
    consts
}

/// The active names restricted to those the manifests declare, in
/// activation order.
pub open spec fn spec_activation(active: Seq<Seq<char>>, all: Seq<Seq<char>>) -> Seq<Seq<char>>
    decreases active.len(),
{
    if active.len() == 0 {
        Seq::empty()
    } else {
        let rest = spec_activation(active.drop_first(), all);
        if all.contains(active[0]) {
            seq![active[0]] + rest
        } else {
            rest
        }
    }
}

/// Filters the active names down to those that some manifest declares.
pub fn filter_activation(active: &Vec<String>, all: &Vec<String>) -> (r: Vec<String>)
    ensures
        r.deep_view() == spec_activation(active.deep_view(), all.deep_view()),
{
    let ghost av = active.deep_view();
    let ghost allv = all.deep_view();
    let mut out: Vec<String> = Vec::new();
    proof {
        assert(out.deep_view() =~= Seq::<Seq<char>>::empty());
        assert(av.skip(0) =~= av);
    }
    let mut i: usize = 0;
    while i < active.len()
        invariant
            0 <= i <= active.len(),
            av == active.deep_view(),
            allv == all.deep_view(),
            av.len() == active@.len(),
            out.deep_view() + spec_activation(av.skip(i as int), allv) == spec_activation(
                av,
                allv,
            ),
        decreases active.len() - i,
    {
        let ghost rem = av.skip(i as int);
        proof {
            assert(rem[0] == av[i as int]);
            assert(rem.drop_first() =~= av.skip(i as int + 1));
        }
        if strops::vec_contains_string(all, active[i].as_str()) {
            let ghost before = out.deep_view();
            out.push(active[i].clone());
            proof {
                assert(out.deep_view() =~= before.push(av[i as int]));
                assert(before.push(av[i as int]) + spec_activation(av.skip(i as int + 1), allv)
                    =~= before + (seq![rem[0]] + spec_activation(rem.drop_first(), allv)));
            }
        }
        i += 1;
    }
    proof {
        assert(av.skip(active@.len() as int) =~= Seq::<Seq<char>>::empty());
        assert(out.deep_view() + spec_activation(Seq::<Seq<char>>::empty(), allv)
            =~= out.deep_view());
    }
    out
}

/// The synthesized directives, consumed by the build invocation.
pub struct DirectiveBundle {
    /// Every symbol the manifests declare, for strict-declaration mode.
    pub all_symbol_names: Vec<String>,
    /// The configuration entries whose value activates them.
    pub active_symbol_names: Vec<String>,
    /// One typed constant per non-boolean entry.
    pub typed_constants: Vec<ConstDecl>,
    /// The active names that the manifests also declare.
    pub activation_list: Vec<String>,
}

/// Projects the parsed configuration and the workspace into the full
/// directive bundle.
pub fn synthesize(config: &SymbolTable, workspace: &Workspace) -> (r: DirectiveBundle)
    ensures
        r.all_symbol_names.deep_view() == spec_all_configs(workspace@),
        r.active_symbol_names.deep_view() == spec_active_names(config@),
        r.typed_constants.deep_view() == spec_consts(config@),
        r.activation_list.deep_view() == spec_activation(
            spec_active_names(config@),
            spec_all_configs(workspace@),
        ),
{
    let all_symbol_names = collect_all_configs(workspace);
    let active_symbol_names = generate_features(config);
    let typed_constants = generate_constants(config);
    let activation_list = filter_activation(&active_symbol_names, &all_symbol_names);
    DirectiveBundle { all_symbol_names, active_symbol_names, typed_constants, activation_list }
}

/// The `CONFIG_`-prefixed keys of the table that no crate declares, in
/// table order: set in the configuration file but unknown to the
/// workspace.
pub open spec fn spec_unused(tbl: Seq<SpecSym>, all: Seq<Seq<char>>) -> Seq<Seq<char>>
    decreases tbl.len(),
{
    if tbl.len() == 0 {
        Seq::empty()
    } else {
        let rest = spec_unused(tbl.drop_first(), all);
        if strops::spec_starts_with(tbl[0].name, "CONFIG_"@) && !all.contains(tbl[0].name) {
            seq![tbl[0].name] + rest
        } else {
            rest
        }
    }
}

/// Lists the configuration entries that no crate declares.
pub fn unused_configs(config: &SymbolTable, all_configs: &Vec<String>) -> (r: Vec<String>)
    ensures
        r.deep_view() == spec_unused(config@, all_configs.deep_view()),
{
    let ghost tbl = config@;
    let ghost allv = all_configs.deep_view();
    let mut out: Vec<String> = Vec::new();
    proof {
        assert(out.deep_view() =~= Seq::<Seq<char>>::empty());
        assert(tbl.skip(0) =~= tbl);
    }
    let mut i: usize = 0;
    while i < config.syms.len()
        invariant
            0 <= i <= config.syms.len(),
            tbl == config@,
            allv == all_configs.deep_view(),
            tbl.len() == config.syms@.len(),
            out.deep_view() + spec_unused(tbl.skip(i as int), allv) == spec_unused(tbl, allv),
        decreases config.syms.len() - i,
    {
        let ghost rem = tbl.skip(i as int);
        proof {
            assert(rem[0] == tbl[i as int]);
            assert(rem.drop_first() =~= tbl.skip(i as int + 1));
        }
        let sym = &config.syms[i];
        if strops::str_starts_with(sym.name.as_str(), "CONFIG_") && !strops::vec_contains_string(
            all_configs,
            sym.name.as_str(),
        ) {
            let ghost before = out.deep_view();
            out.push(sym.name.clone());
            proof {
                assert(out.deep_view() =~= before.push(sym.name@));
                assert(before.push(sym.name@) + spec_unused(tbl.skip(i as int + 1), allv)
                    =~= before + (seq![rem[0].name] + spec_unused(rem.drop_first(), allv)));
            }
        }
        i += 1;
    }
    proof {
        assert(tbl.skip(config.syms@.len() as int) =~= Seq::<SpecSym>::empty());
    }
    out
}

/// The declared symbols that the configuration file does not mention, in
/// declaration order: they stay disabled until the file sets them.
pub open spec fn spec_undefined(all: Seq<Seq<char>>, tbl: Seq<SpecSym>) -> Seq<Seq<char>>
    decreases all.len(),
{
    if all.len() == 0 {
        Seq::empty()
    } else {
        let rest = spec_undefined(all.drop_first(), tbl);
        if !contains_name(tbl, all[0]) {
            seq![all[0]] + rest
        } else {
            rest
        }
    }
}

/// Lists the declared symbols that the configuration file leaves unset.
pub fn undefined_configs(all_configs: &Vec<String>, config: &SymbolTable) -> (r: Vec<String>)
    ensures
        r.deep_view() == spec_undefined(all_configs.deep_view(), config@),
{
    let ghost tbl = config@;
    let ghost allv = all_configs.deep_view();
    let mut out: Vec<String> = Vec::new();
    proof {
        assert(out.deep_view() =~= Seq::<Seq<char>>::empty());
        assert(allv.skip(0) =~= allv);
    }
    let mut i: usize = 0;
    while i < all_configs.len()
        invariant
            0 <= i <= all_configs.len(),
            tbl == config@,
            allv == all_configs.deep_view(),
            allv.len() == all_configs@.len(),
            out.deep_view() + spec_undefined(allv.skip(i as int), tbl) == spec_undefined(
                allv,
                tbl,
            ),
        decreases all_configs.len() - i,
    {
        let ghost rem = allv.skip(i as int);
        proof {
            assert(rem[0] == allv[i as int]);
            assert(rem.drop_first() =~= allv.skip(i as int + 1));
        }
        if !config.contains_key(all_configs[i].as_str()) {
            let ghost before = out.deep_view();
            out.push(all_configs[i].clone());
            proof {
                assert(out.deep_view() =~= before.push(allv[i as int]));
                assert(before.push(allv[i as int]) + spec_undefined(allv.skip(i as int + 1), tbl)
                    =~= before + (seq![rem[0]] + spec_undefined(rem.drop_first(), tbl)));
            }
        }
        i += 1;
    }
    proof {
        assert(allv.skip(all_configs@.len() as int) =~= Seq::<Seq<char>>::empty());
    }
    out
}

proof fn lemma_cons_contains(head: Seq<char>, rest: Seq<Seq<char>>, x: Seq<char>)
    ensures
        (seq![head] + rest).contains(x) <==> (x == head || rest.contains(x)),
{
    let s = seq![head] + rest;
    if s.contains(x) {
        let i = choose|i: int| 0 <= i < s.len() && s[i] == x;
        if i > 0 {
            assert(rest[i - 1] == x);
        }
    }
    if x == head {
        assert(s[0] == x);
    }
    if rest.contains(x) {
        let i = choose|i: int| 0 <= i < rest.len() && rest[i] == x;
        assert(s[i + 1] == x);
    }
}

/// What the active-name list holds: exactly the names of active entries.
pub proof fn lemma_active_names_membership(tbl: Seq<SpecSym>)
    ensures
        forall|x: Seq<char>|
            #[trigger] spec_active_names(tbl).contains(x) <==> (exists|i: int|
                0 <= i < tbl.len() && (#[trigger] tbl[i]).name == x && is_active_sym(tbl[i])),
    decreases tbl.len(),
{
    if tbl.len() > 0 {
        let rest = tbl.drop_first();
        lemma_active_names_membership(rest);
        assert forall|x: Seq<char>|
            #[trigger] spec_active_names(tbl).contains(x) <==> (exists|i: int|
                0 <= i < tbl.len() && (#[trigger] tbl[i]).name == x && is_active_sym(
                    tbl[i],
                )) by {
            if is_active_sym(tbl[0]) {
                lemma_cons_contains(tbl[0].name, spec_active_names(rest), x);
            }
            if spec_active_names(tbl).contains(x) {
                if spec_active_names(rest).contains(x) {
                    let i = choose|i: int|
                        0 <= i < rest.len() && (#[trigger] rest[i]).name == x && is_active_sym(
                            rest[i],
                        );
                    assert(tbl[i + 1] == rest[i]);
                } else {
                    assert(tbl[0].name == x && is_active_sym(tbl[0]));
                }
            }
            if exists|i: int|
                0 <= i < tbl.len() && (#[trigger] tbl[i]).name == x && is_active_sym(tbl[i]) {
                let i = choose|i: int|
                    0 <= i < tbl.len() && (#[trigger] tbl[i]).name == x && is_active_sym(tbl[i]);
                if i > 0 {
                    assert(rest[i - 1] == tbl[i]);
                    assert(spec_active_names(rest).contains(x));
                }
            }
        }
    }
}

/// What the activation list holds: exactly the names both active and
/// declared.
pub proof fn lemma_activation_membership(active: Seq<Seq<char>>, all: Seq<Seq<char>>)
    ensures
        forall|x: Seq<char>|
            #[trigger] spec_activation(active, all).contains(x) <==> (active.contains(x)
                && all.contains(x)),
    decreases active.len(),
{
    if active.len() > 0 {
        let rest = active.drop_first();
        lemma_activation_membership(rest, all);
        assert forall|x: Seq<char>|
            #[trigger] spec_activation(active, all).contains(x) <==> (active.contains(x)
                && all.contains(x)) by {
            if all.contains(active[0]) {
                lemma_cons_contains(active[0], spec_activation(rest, all), x);
            }
            if spec_activation(active, all).contains(x) {
                if spec_activation(rest, all).contains(x) {
                    let i = choose|i: int| 0 <= i < rest.len() && rest[i] == x;
                    assert(active[i + 1] == x);
                } else {
                    assert(x == active[0]);
                }
            }
            if active.contains(x) && all.contains(x) {
                let i = choose|i: int| 0 <= i < active.len() && active[i] == x;
                if i > 0 {
                    assert(rest[i - 1] == x);
                    assert(spec_activation(rest, all).contains(x));
                }
            }
        }
    }
}

/// The round-trip law.  A `CONFIG_`-prefixed symbol set to `y` or `m` in
/// the configuration and declared by some kbuild-enabled crate appears in
/// both the active-name list and the activation list; a symbol set to `n`
/// or absent appears in neither.
pub proof fn lemma_round_trip(tbl: Seq<SpecSym>, ws: Seq<SpecCrate>, name: Seq<char>)
    requires
        wf_table(tbl),
    ensures
        (strops::spec_starts_with(name, "CONFIG_"@) && contains_name(tbl, name)
            && is_active_value(lookup(tbl, name)) && declares_config(ws, name)) ==> (
        spec_active_names(tbl).contains(name) && spec_activation(
            spec_active_names(tbl),
            spec_all_configs(ws),
        ).contains(name)),
        (!contains_name(tbl, name) || lookup(tbl, name) == "n"@) ==> (!spec_active_names(
            tbl,
        ).contains(name) && !spec_activation(
            spec_active_names(tbl),
            spec_all_configs(ws),
        ).contains(name)),
{
    lemma_active_names_membership(tbl);
    lemma_activation_membership(spec_active_names(tbl), spec_all_configs(ws));
    lemma_all_configs_membership(ws);
    config::lemma_index_of_name_props(tbl, name);
    let idx = index_of_name(tbl, name);
    if strops::spec_starts_with(name, "CONFIG_"@) && contains_name(tbl, name) && is_active_value(
        lookup(tbl, name),
    ) && declares_config(ws, name) {
        assert(tbl[idx].name == name && is_active_sym(tbl[idx]));
        assert(spec_active_names(tbl).contains(name));
        assert(spec_all_configs(ws).contains(name));
    }
    if !contains_name(tbl, name) || lookup(tbl, name) == "n"@ {
        if spec_active_names(tbl).contains(name) {
            let i = choose|i: int|
                0 <= i < tbl.len() && (#[trigger] tbl[i]).name == name && is_active_sym(tbl[i]);
            assert(contains_name(tbl, name)) by {
                if idx == tbl.len() {
                    assert(tbl[i].name != name);
                }
            }
            assert(lookup(tbl, name) == "n"@);
            assert(i == idx) by {
                if i < idx {
                    assert(tbl[i].name != name);
                } else if i > idx {
                    assert(tbl[idx].name != tbl[i].name);
                }
            }
            reveal_strlit("y");
            reveal_strlit("m");
            reveal_strlit("n");
            assert(tbl[i].value == "n"@);
            assert("n"@ != "y"@ && "n"@ != "m"@) by {
                assert("n"@[0] == 'n' && "y"@[0] == 'y' && "m"@[0] == 'm');
            }
            assert(!is_active_value(tbl[i].value));
        }
    }
}

/// Every constant's name belongs to an entry that wants a constant.
pub proof fn lemma_consts_names(tbl: Seq<SpecSym>)
    ensures
        forall|c: SpecConst|
            #[trigger] spec_consts(tbl).contains(c) ==> exists|i: int|
                0 <= i < tbl.len() && (#[trigger] tbl[i]).name == c.name && wants_const(tbl[i]),
    decreases tbl.len(),
{
    if tbl.len() > 0 {
        let rest = tbl.drop_first();
        lemma_consts_names(rest);
        assert forall|c: SpecConst| #[trigger] spec_consts(tbl).contains(c) implies exists|i: int|
            0 <= i < tbl.len() && (#[trigger] tbl[i]).name == c.name && wants_const(tbl[i]) by {
            let s = spec_consts(tbl);
            let idx = choose|idx: int| 0 <= idx < s.len() && s[idx] == c;
            if wants_const(tbl[0]) {
                let head = SpecConst {
                    name: tbl[0].name,
                    value: spec_const_of(tbl[0].value)->Some_0,
                };
                if idx == 0 {
                    assert(c == head);
                    assert(tbl[0].name == c.name && wants_const(tbl[0]));
                } else {
                    assert(spec_consts(rest)[idx - 1] == c);
                    assert(spec_consts(rest).contains(c));
                    let i = choose|i: int|
                        0 <= i < rest.len() && (#[trigger] rest[i]).name == c.name && wants_const(
                            rest[i],
                        );
                    assert(tbl[i + 1] == rest[i]);
                }
            } else {
                assert(spec_consts(rest)[idx] == c);
                assert(spec_consts(rest).contains(c));
                let i = choose|i: int|
                    0 <= i < rest.len() && (#[trigger] rest[i]).name == c.name && wants_const(
                        rest[i],
                    );
                assert(tbl[i + 1] == rest[i]);
            }
        }
    }
}

/// The boolean-exclusion law.  An entry whose value is one of the three
/// booleans `y`, `m`, `n` yields no typed constant: such values act
/// through the activation sets alone.
pub proof fn lemma_no_constant_for_bool(tbl: Seq<SpecSym>, name: Seq<char>)
    requires
        wf_table(tbl),
        contains_name(tbl, name),
        is_bool_value(lookup(tbl, name)),
    ensures
        forall|c: SpecConst| #[trigger] spec_consts(tbl).contains(c) ==> c.name != name,
{
    lemma_consts_names(tbl);
    config::lemma_index_of_name_props(tbl, name);
    let idx = index_of_name(tbl, name);
    assert forall|c: SpecConst| #[trigger] spec_consts(tbl).contains(c) implies c.name != name by {
        if c.name == name {
            let i = choose|i: int|
                0 <= i < tbl.len() && (#[trigger] tbl[i]).name == c.name && wants_const(tbl[i]);
            assert(i == idx) by {
                if i < idx {
                    assert(tbl[i].name != name);
                } else if i > idx {
                    assert(tbl[idx].name != tbl[i].name);
                }
            }
            assert(is_bool_value(tbl[i].value));
        }
    }
}

/// The filtering law.  A symbol that no kbuild-enabled crate declares
/// never reaches the activation list, however the configuration sets it.
pub proof fn lemma_activation_filtered(active: Seq<Seq<char>>, ws: Seq<SpecCrate>, name: Seq<char>)
    ensures
        !declares_config(ws, name) ==> !spec_activation(active, spec_all_configs(ws)).contains(
            name,
        ),
{
    lemma_activation_membership(active, spec_all_configs(ws));
    lemma_all_configs_membership(ws);
}

} // verus!
