//! The configuration parser: turns raw `KEY=value` text into a symbol
//! table, line by line.
//!
//! A line is ignored when, after trimming, it is empty, begins with `#`,
//! or holds no `=`.  A kept line is split at its first `=`; both sides are
//! trimmed.  A name that occurs twice keeps its first position and takes
//! the last value (last write wins), so names are unique within one parse.

use vstd::prelude::*;

use crate::strops;

verus! {

/// Mathematical image of one configuration entry.
pub ghost struct SpecSym {
    pub name: Seq<char>,
    pub value: Seq<char>,
}

/// One configuration entry: a convention-prefixed name and its raw,
/// untyped value text.
pub struct Symbol {
    pub name: String,
    pub raw_value: String,
}

impl View for Symbol {
    type V = SpecSym;

    open spec fn view(&self) -> SpecSym {
        SpecSym { name: self.name@, value: self.raw_value@ }
    }
}

/// The parsed configuration: entries in first-occurrence order.
pub struct SymbolTable {
    pub syms: Vec<Symbol>,
}

impl View for SymbolTable {
    type V = Seq<SpecSym>;

    open spec fn view(&self) -> Seq<SpecSym> {
        self.syms@.map_values(|s: Symbol| s@)
    }
}

/// Index of the first entry named `name`, or `tbl.len()` when there is
/// none.
pub open spec fn index_of_name(tbl: Seq<SpecSym>, name: Seq<char>) -> int
    decreases tbl.len(),
{
    if tbl.len() == 0 {
        0
    } else if tbl[0].name == name {
        0
    } else {
        1 + index_of_name(tbl.drop_first(), name)
    }
}

/// Some entry of `tbl` is named `name`.
pub open spec fn contains_name(tbl: Seq<SpecSym>, name: Seq<char>) -> bool {
    index_of_name(tbl, name) < tbl.len()
}

/// The value recorded for `name`; meaningful only when `contains_name`.
pub open spec fn lookup(tbl: Seq<SpecSym>, name: Seq<char>) -> Seq<char> {
    tbl[index_of_name(tbl, name)].value
}

/// `index_of_name` is in bounds, earlier entries have other names, and it
/// points at `name` whenever it is in range.
pub proof fn lemma_index_of_name_props(tbl: Seq<SpecSym>, name: Seq<char>)
    ensures
        0 <= index_of_name(tbl, name) <= tbl.len(),
        forall|j: int| 0 <= j < index_of_name(tbl, name) ==> tbl[j].name != name,
        index_of_name(tbl, name) < tbl.len() ==> tbl[index_of_name(tbl, name)].name == name,
    decreases tbl.len(),
{
    if tbl.len() > 0 && tbl[0].name != name {
        let rest = tbl.drop_first();
        lemma_index_of_name_props(rest, name);
        assert forall|j: int| 0 <= j < index_of_name(tbl, name) implies tbl[j].name != name by {
            if j > 0 {
                assert(tbl[j] == rest[j - 1]);
            }
        }
    }
}

/// `index_of_name` finds exactly the least index named `name`.
proof fn lemma_index_of_name_is(tbl: Seq<SpecSym>, name: Seq<char>, i: int)
    requires
        0 <= i < tbl.len(),
        tbl[i].name == name,
        forall|j: int| 0 <= j < i ==> tbl[j].name != name,
    ensures
        index_of_name(tbl, name) == i,
    decreases tbl.len(),
{
    if tbl[0].name != name {
        let rest = tbl.drop_first();
        assert forall|j: int| 0 <= j < i - 1 implies rest[j].name != name by {
            assert(rest[j] == tbl[j + 1]);
        }
        assert(rest[i - 1] == tbl[i]);
        lemma_index_of_name_is(rest, name, i - 1);
    }
}

/// With no entry named `name`, `index_of_name` is `tbl.len()`.
proof fn lemma_index_of_name_is_len(tbl: Seq<SpecSym>, name: Seq<char>)
    requires
        forall|j: int| 0 <= j < tbl.len() ==> tbl[j].name != name,
    ensures
        index_of_name(tbl, name) == tbl.len(),
    decreases tbl.len(),
{
    if tbl.len() > 0 {
        let rest = tbl.drop_first();
        assert forall|j: int| 0 <= j < rest.len() implies rest[j].name != name by {
            assert(rest[j] == tbl[j + 1]);
        }
        lemma_index_of_name_is_len(rest, name);
    }
}

/// Recording `name = value`: overwrite the value in place when the name
/// is present, append a fresh entry otherwise.
pub open spec fn spec_upsert(tbl: Seq<SpecSym>, name: Seq<char>, value: Seq<char>) -> Seq<
    SpecSym,
> {
    if contains_name(tbl, name) {
        tbl.update(index_of_name(tbl, name), (SpecSym { name, value }))
    } else {
        tbl.push((SpecSym { name, value }))
    }
}

/// The effect of one raw input line on the table.
pub open spec fn spec_line(tbl: Seq<SpecSym>, line: Seq<char>) -> Seq<SpecSym> {
    let t = strops::spec_trim(line);
    if t.len() == 0 || t[0] == '#' {
        tbl
    } else {
        let e = strops::first_at(t, '=');
        if e == t.len() {
            tbl
        } else {
            spec_upsert(
                tbl,
                strops::spec_trim(t.subrange(0, e)),
                strops::spec_trim(t.subrange(e + 1, t.len() as int)),
            )
        }
    }
}

/// The effect of a whole text on the table: lines split at `\n`, first
/// to last.
pub open spec fn spec_parse_from(tbl: Seq<SpecSym>, text: Seq<char>) -> Seq<SpecSym>
    decreases text.len(),
    via spec_parse_from_decreases
{
    if text.len() == 0 {
        tbl
    } else {
        let k = strops::first_at(text, '\n');
        let line = text.subrange(0, k);
        if k == text.len() {
            spec_line(tbl, line)
        } else {
            spec_parse_from(spec_line(tbl, line), text.subrange(k + 1, text.len() as int))
        }
    }
}

#[via_fn]
proof fn spec_parse_from_decreases(tbl: Seq<SpecSym>, text: Seq<char>) {
    strops::lemma_first_at_props(text, '\n');
}

/// The table that a raw configuration text denotes.
pub open spec fn spec_parse(text: Seq<char>) -> Seq<SpecSym> {
    spec_parse_from(Seq::empty(), text)
}

/// No two entries share a name.
pub open spec fn wf_table(tbl: Seq<SpecSym>) -> bool {
    forall|i: int, j: int| 0 <= i < j < tbl.len() ==> tbl[i].name != tbl[j].name
}

impl SymbolTable {
    /// An empty table.
    pub fn new() -> (r: SymbolTable)
        ensures
            r@ == Seq::<SpecSym>::empty(),
    {
        let t = SymbolTable { syms: Vec::new() };
        proof {
            assert(t@ =~= Seq::<SpecSym>::empty());
        }
        t
    }

    /// Number of entries.
    pub fn len(&self) -> (r: usize)
        ensures
            r == self@.len(),
    {
        self.syms.len()
    }

    /// Records `name = value`, overwriting in place when the name is
    /// already present.
    pub fn upsert(&mut self, name: String, value: String)
        ensures
            final(self)@ == spec_upsert(old(self)@, name@, value@),
    {
        let ghost tbl = self@;
        let mut i: usize = 0;
        while i < self.syms.len()
            invariant
                0 <= i <= self.syms.len(),
                self@ == tbl,
                tbl == old(self)@,
                self@.len() == self.syms@.len(),
                forall|j: int| 0 <= j < i ==> tbl[j].name != name@,
            decreases self.syms.len() - i,
        {
            if self.syms[i].name == name {
                proof {
                    assert(tbl[i as int].name == name@);
                    lemma_index_of_name_is(tbl, name@, i as int);
                }
                let _ = self.syms.remove(i);
                self.syms.insert(i, Symbol { name, raw_value: value });
                proof {
                    assert(self@ =~= spec_upsert(tbl, name@, value@));
                }
                return ;
            }
            i += 1;
        }
        proof {
            lemma_index_of_name_is_len(tbl, name@);
        }
        self.syms.push(Symbol { name, raw_value: value });
        proof {
            assert(self@ =~= spec_upsert(tbl, name@, value@));
        }
    }
}

impl SymbolTable {
    /// Whether the table holds an entry named `name`.
    pub fn contains_key(&self, name: &str) -> (r: bool)
        ensures
            r == contains_name(self@, name@),
    {
        let ghost tbl = self@;
        let mut i: usize = 0;
        while i < self.syms.len()
            invariant
                0 <= i <= self.syms.len(),
                tbl == self@,
                tbl.len() == self.syms@.len(),
                forall|j: int| 0 <= j < i ==> tbl[j].name != name@,
            decreases self.syms.len() - i,
        {
            if strops::str_eq(self.syms[i].name.as_str(), name) {
                proof {
                    lemma_index_of_name_is(tbl, name@, i as int);
                }
                return true;
            }
            i += 1;
        }
        proof {
            lemma_index_of_name_is_len(tbl, name@);
        }
        false
    }

    /// The raw value recorded for `name`, when the table holds it.
    pub fn get_value(&self, name: &str) -> (r: Option<&String>)
        ensures
            match r {
                Option::Some(v) => contains_name(self@, name@) && v@ == lookup(self@, name@),
                Option::None => !contains_name(self@, name@),
            },
    {
        let ghost tbl = self@;
        let mut i: usize = 0;
        while i < self.syms.len()
            invariant
                0 <= i <= self.syms.len(),
                tbl == self@,
                tbl.len() == self.syms@.len(),
                forall|j: int| 0 <= j < i ==> tbl[j].name != name@,
            decreases self.syms.len() - i,
        {
            if strops::str_eq(self.syms[i].name.as_str(), name) {
                proof {
                    lemma_index_of_name_is(tbl, name@, i as int);
                }
                return Option::Some(&self.syms[i].raw_value);
            }
            i += 1;
        }
        proof {
            lemma_index_of_name_is_len(tbl, name@);
        }
        Option::None
    }
}

/// Applies one raw line to the table.
fn process_line(tbl: &mut SymbolTable, line: &str)
    ensures
        final(tbl)@ == spec_line(old(tbl)@, line@),
{
    let t = strops::trim_str(line);
    let tlen = t.unicode_len();
    if tlen == 0 {
        return ;
    }
    if t.get_char(0) == '#' {
        return ;
    }
    match strops::find_char(t, '=') {
        Option::None => {},
        Option::Some(e) => {
            proof {
                strops::lemma_first_at_props(t@, '=');
            }
            let key = strops::trim_str(t.substring_char(0, e));
            let val = strops::trim_str(t.substring_char(e + 1, tlen));
            tbl.upsert(strops::str_to_string(key), strops::str_to_string(val));
        },
    }
}

/// Parses a raw configuration text into a symbol table.
///
/// The result is exactly `spec_parse` of the text: lines are read first
/// to last, malformed lines are dropped, and a repeated name keeps its
/// first position with its last value.
pub fn parse_config_text(text: &str) -> (r: SymbolTable)
    ensures
        r@ == spec_parse(text@),
{
    let mut tbl = SymbolTable::new();
    let len = text.unicode_len();
    proof {
        assert(text@.skip(0) =~= text@);
    }
    let mut i: usize = 0;
    while i < len
        invariant
            0 <= i <= len,
            len == text@.len(),
            spec_parse_from(tbl@, text@.skip(i as int)) == spec_parse(text@),
        decreases len - i,
    {
        let ghost rem = text@.skip(i as int);
        let rest = text.substring_char(i, len);
        proof {
            assert(rest@ =~= rem);
            strops::lemma_first_at_props(rem, '\n');
        }
        let k = match strops::find_char(rest, '\n') {
            Option::Some(k) => k,
            Option::None => rest.unicode_len(),
        };
        proof {
            assert(k == strops::first_at(rem, '\n'));
        }
        let line = rest.substring_char(0, k);
        process_line(&mut tbl, line);
        if k == len - i {
            i = len;
        } else {
            proof {
                assert(rem.subrange(k + 1, rem.len() as int) =~= text@.skip(i + k + 1));
            }
            i = i + k + 1;
        }
    }
    proof {
        assert(text@.skip(len as int) =~= Seq::<char>::empty());
    }
    tbl
}

/// Proves the symbol-table invariant: within one parse, no two entries
/// share a name.
pub proof fn lemma_parse_unique_names(text: Seq<char>)
    ensures
        wf_table(spec_parse(text)),
{
    lemma_parse_from_unique_names(Seq::empty(), text);
}

proof fn lemma_upsert_unique_names(tbl: Seq<SpecSym>, name: Seq<char>, value: Seq<char>)
    requires
        wf_table(tbl),
    ensures
        wf_table(spec_upsert(tbl, name, value)),
{
    lemma_index_of_name_props(tbl, name);
}

proof fn lemma_line_unique_names(tbl: Seq<SpecSym>, line: Seq<char>)
    requires
        wf_table(tbl),
    ensures
        wf_table(spec_line(tbl, line)),
{
    let t = strops::spec_trim(line);
    if !(t.len() == 0 || t[0] == '#') {
        let e = strops::first_at(t, '=');
        if e != t.len() {
            lemma_upsert_unique_names(
                tbl,
                strops::spec_trim(t.subrange(0, e)),
                strops::spec_trim(t.subrange(e + 1, t.len() as int)),
            );
        }
    }
}

proof fn lemma_parse_from_unique_names(tbl: Seq<SpecSym>, text: Seq<char>)
    requires
        wf_table(tbl),
    ensures
        wf_table(spec_parse_from(tbl, text)),
    decreases text.len(),
{
    if text.len() > 0 {
        strops::lemma_first_at_props(text, '\n');
        let k = strops::first_at(text, '\n');
        let line = text.subrange(0, k);
        lemma_line_unique_names(tbl, line);
        if k != text.len() {
            lemma_parse_from_unique_names(
                spec_line(tbl, line),
                text.subrange(k + 1, text.len() as int),
            );
        }
    }
}

} // verus!
