//! Scaffolding logic of the `init` command: deciding what the ignore
//! file is missing and appending exactly those entries.
//!
//! The generated build-tool configuration and the build output directory
//! are regenerated artifacts, so `init` makes sure the ignore file lists
//! them.  An entry already present on any line, however indented, is not
//! added again; when nothing is missing the file is left untouched.

use vstd::prelude::*;

use crate::strops;

verus! {

/// Some line of `text`, split at `\n`, trims to exactly `entry`.
pub open spec fn spec_has_line(text: Seq<char>, entry: Seq<char>) -> bool
    decreases text.len(),
    via spec_has_line_decreases
{
    if text.len() == 0 {
        false
    } else {
        let k = strops::first_at(text, '\n');
        let line = text.subrange(0, k);
        strops::spec_trim(line) == entry || (k < text.len() && spec_has_line(
            text.subrange(k + 1, text.len() as int),
            entry,
        ))
    }
}

#[via_fn]
proof fn spec_has_line_decreases(text: Seq<char>, entry: Seq<char>) {
    strops::lemma_first_at_props(text, '\n');
}

/// Whether some line of `text` trims to exactly `entry`.
pub fn has_line(text: &str, entry: &str) -> (r: bool)
    ensures
        r == spec_has_line(text@, entry@),
{
    let len = text.unicode_len();
    proof {
        assert(text@.skip(0) =~= text@);
    }
    let mut i: usize = 0;
    while i < len
        invariant
            0 <= i <= len,
            len == text@.len(),
            spec_has_line(text@, entry@) == spec_has_line(text@.skip(i as int), entry@),
        decreases len - i,
    {
        let ghost rem = text@.skip(i as int);
        let rest = text.substring_char(i, len);
        proof {
            assert(rest@ =~= rem);
            strops::lemma_first_at_props(rem, '\n');
        }
        let k = match strops::find_char(rest, '\n') {
            Option::Some(k) => k,
            Option::None => rest.unicode_len(),
        };
        let line = rest.substring_char(0, k);
        if strops::str_eq(strops::trim_str(line), entry) {
            return true;
        }
        if k == len - i {
            proof {
                assert(!spec_has_line(rem, entry@));
            }
            return false;
        }
        proof {
            assert(rem.subrange(k + 1, rem.len() as int) =~= text@.skip(i + k + 1));
        }
        i = i + k + 1;
    }
    proof {
        assert(text@.skip(len as int) =~= Seq::<char>::empty());
    }
    false
}

/// The entries the ignore file is missing, in fixed order.
pub open spec fn spec_missing_entries(text: Seq<char>) -> Seq<char> {
    (if !spec_has_line(text, ".cargo/config.toml"@) {
        ".cargo/config.toml\n"@
    } else {
        Seq::empty()
    }) + (if !spec_has_line(text, "target/"@) {
        "target/\n"@
    } else {
        Seq::empty()
    })
}

/// The ignore file after the merge: unchanged when nothing is missing,
/// else the old text, closed with a newline when it lacked one, with a
/// marker comment and the missing entries appended.
pub open spec fn spec_merge_gitignore(text: Seq<char>) -> Option<Seq<char>> {
    if spec_has_line(text, ".cargo/config.toml"@) && spec_has_line(text, "target/"@) {
        Option::None
    } else {
        Option::Some(
            (if text.len() > 0 && text.last() != '\n' {
                text + "\n"@
            } else {
                text
            }) + "\n# cargo-kbuild artifacts\n"@ + spec_missing_entries(text),
        )
    }
}

/// Appends the regenerated-artifact entries that the ignore file does
/// not hold yet; `None` means the file already holds them all.
pub fn merge_gitignore(existing: &str) -> (r: Option<String>)
    ensures
        match r {
            Option::Some(updated) => spec_merge_gitignore(existing@) == Option::Some(updated@),
            Option::None => spec_merge_gitignore(existing@) is None,
        },
{
    let has_cargo = has_line(existing, ".cargo/config.toml");
    let has_target = has_line(existing, "target/");
    if has_cargo && has_target {
        return Option::None;
    }
    let mut out = strops::str_to_string(existing);
    let len = existing.unicode_len();
    if len > 0 && existing.get_char(len - 1) != '\n' {
        out.append("\n");
    }
    out.append("\n# cargo-kbuild artifacts\n");
    if !has_cargo {
        out.append(".cargo/config.toml\n");
    }
    if !has_target {
        out.append("target/\n");
    }
    proof {
        assert(out@ =~= spec_merge_gitignore(existing@)->Some_0);
    }
    Option::Some(out)
}

} // verus!
