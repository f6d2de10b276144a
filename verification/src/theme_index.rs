//! Parsing of a theme's `index.theme` descriptor.
//!
//! The parser is a pure function of the file's text: it scans line by line
//! for `Directories=` and `Inherits=` keys, whose values are lists separated
//! by commas or semicolons; entries are trimmed and empty entries dropped.
//! All other lines are ignored, so unknown keys and sections are harmless.
//! Reading the file from disk is the driver's job; a missing or unreadable
//! file simply contributes an empty descriptor.

use vstd::prelude::*;
use vstd::string::*;

use crate::text::{has_prefix, is_prefix, split_on, split_str, suffix_from, trim_str, trimmed};

verus! {

/// One theme's declared icon subdirectories and parent themes, in
/// declaration order.
pub struct ThemeDescriptor {
    pub directories: Vec<String>,
    pub inherits: Vec<String>,
}

/// The separators of a list-valued key.
pub open spec fn list_seps() -> Seq<char> {
    seq![',', ';']
}

/// The line separators (splitting is on newlines only).
pub open spec fn line_seps() -> Seq<char> {
    seq!['\n', '\n']
}

/// The raw segments of a list value, trimmed, with empty entries dropped.
pub open spec fn clean_items(raw: Seq<Seq<char>>) -> Seq<Seq<char>>
    decreases raw.len(),
{
    if raw.len() == 0 {
        Seq::empty()
    } else if trimmed(raw.last()).len() > 0 {
        clean_items(raw.drop_last()).push(trimmed(raw.last()))
    } else {
        clean_items(raw.drop_last())
    }
}

/// The entries of one comma-or-semicolon separated list value.
pub open spec fn list_value(s: Seq<char>) -> Seq<Seq<char>> {
    clean_items(split_on(s, list_seps()))
}

/// All entries contributed by lines carrying the given key, in file order.
pub open spec fn key_values(lines: Seq<Seq<char>>, key: Seq<char>) -> Seq<Seq<char>>
    decreases lines.len(),
{
    if lines.len() == 0 {
        Seq::empty()
    } else {
        let t = trimmed(lines.last());
        key_values(lines.drop_last(), key) + if is_prefix(key, t) {
            list_value(t.skip(key.len() as int))
        } else {
            Seq::empty()
        }
    }
}

/// The subdirectory list declared by the descriptor text.
pub open spec fn directories_of(content: Seq<char>) -> Seq<Seq<char>> {
    key_values(split_on(content, line_seps()), "Directories="@)
}

/// The parent theme list declared by the descriptor text.
pub open spec fn inherits_of(content: Seq<char>) -> Seq<Seq<char>> {
    key_values(split_on(content, line_seps()), "Inherits="@)
}

/// Splits `value` on commas and semicolons and appends the trimmed,
/// non-empty entries to `acc`.
fn append_list_items(acc: &mut Vec<String>, value: &str)
    ensures
        final(acc).deep_view() == old(acc).deep_view() + list_value(value@),
{
    let raw = split_str(value, ',', ';');
    let ghost raw_v = raw.deep_view();
    let mut i: usize = 0;
    proof {
        assert(raw_v.take(0) =~= Seq::<Seq<char>>::empty());
        assert(old(acc).deep_view() + Seq::<Seq<char>>::empty() =~= old(acc).deep_view());
    }
    while i < raw.len()
        invariant
            i <= raw.len(),
            raw_v == raw.deep_view(),
            raw_v == split_on(value@, list_seps()),
            acc.deep_view() == old(acc).deep_view() + clean_items(raw_v.take(i as int)),
        decreases raw.len() - i,
    {
        let t = trim_str(raw[i].as_str());
        proof {
            assert(raw_v.take(i + 1).drop_last() =~= raw_v.take(i as int));
            assert(raw_v.take(i + 1).last() == raw_v[i as int]);
        }
        if t.as_str().unicode_len() > 0 {
            let ghost prev = acc.deep_view();
            acc.push(t);
            proof {
                assert(acc.deep_view() =~= prev.push(trimmed(raw_v[i as int])));
                assert(old(acc).deep_view() + clean_items(raw_v.take(i + 1)) =~= acc.deep_view());
            }
        }
        i += 1;
    }
    proof {
        assert(raw_v.take(raw_v.len() as int) =~= raw_v);
    }
}

/// Extracts the ordered `Directories=` and `Inherits=` lists from the text
/// of an `index.theme` file. Lines that carry neither key are ignored.
pub fn parse_index_theme(content: &str) -> (d: ThemeDescriptor)
    ensures
        d.directories.deep_view() == directories_of(content@),
        d.inherits.deep_view() == inherits_of(content@),
{
    let lines = split_str(content, '\n', '\n');
    let ghost lines_v = lines.deep_view();
    let mut directories: Vec<String> = Vec::new();
    let mut inherits: Vec<String> = Vec::new();
    let mut i: usize = 0;
    proof {
        assert(lines_v.take(0) =~= Seq::<Seq<char>>::empty());
        assert(directories.deep_view() =~= Seq::<Seq<char>>::empty());
        assert(inherits.deep_view() =~= Seq::<Seq<char>>::empty());
    }
    while i < lines.len()
        invariant
            i <= lines.len(),
            lines_v == lines.deep_view(),
            lines_v == split_on(content@, line_seps()),
            directories.deep_view() == key_values(lines_v.take(i as int), "Directories="@),
            inherits.deep_view() == key_values(lines_v.take(i as int), "Inherits="@),
        decreases lines.len() - i,
    {
        let t = trim_str(lines[i].as_str());
        proof {
            assert(lines_v.take(i + 1).drop_last() =~= lines_v.take(i as int));
            assert(lines_v.take(i + 1).last() == lines_v[i as int]);
        }
        let dkey = "Directories=";
        let ikey = "Inherits=";
        if has_prefix(t.as_str(), dkey) {
            let rest = suffix_from(t.as_str(), dkey.unicode_len());
            append_list_items(&mut directories, rest.as_str());
        } else {
            proof {
                assert(directories.deep_view() + Seq::<Seq<char>>::empty()
                    =~= directories.deep_view());
            }
        }
        if has_prefix(t.as_str(), ikey) {
            let rest = suffix_from(t.as_str(), ikey.unicode_len());
            append_list_items(&mut inherits, rest.as_str());
        } else {
            proof {
                assert(inherits.deep_view() + Seq::<Seq<char>>::empty() =~= inherits.deep_view());
            }
        }
        i += 1;
    }
    proof {
        assert(lines_v.take(lines_v.len() as int) =~= lines_v);
    }
    ThemeDescriptor { directories, inherits }
}

} // verus!
