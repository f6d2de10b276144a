//! The ordered list of base data directories a resolution probes, and the
//! fixed pixmap fallback directories.
//!
//! The list is a pure function of the environment values handed in by the
//! caller: the user-writable data directory first (an override value, else a
//! default under the user's home), then the system data directories (an
//! override list split on `:`, else a fixed default pair). No filesystem
//! access happens here; existence is checked at the point of use.

use vstd::prelude::*;
use vstd::string::*;

use crate::text::{split_on, split_str};

verus! {

/// The raw segments with empty entries dropped, kept verbatim otherwise.
pub open spec fn nonempty_items(raw: Seq<Seq<char>>) -> Seq<Seq<char>>
    decreases raw.len(),
{
    if raw.len() == 0 {
        Seq::empty()
    } else if raw.last().len() > 0 {
        nonempty_items(raw.drop_last()).push(raw.last())
    } else {
        nonempty_items(raw.drop_last())
    }
}

/// The user-writable data directory: the override when it is set and
/// non-empty, else `home/.local/share`.
pub open spec fn user_data_dir(data_home: Option<Seq<char>>, home: Seq<char>) -> Seq<char> {
    match data_home {
        Option::Some(d) => if d.len() > 0 {
            d
        } else {
            home + "/.local/share"@
        },
        Option::None => home + "/.local/share"@,
    }
}

/// The system data directories: the override split on `:` with empty
/// entries dropped when it is set and non-empty, else the fixed defaults.
pub open spec fn system_data_dirs(data_dirs: Option<Seq<char>>) -> Seq<Seq<char>> {
    match data_dirs {
        Option::Some(d) => if d.len() > 0 {
            nonempty_items(split_on(d, seq![':', ':']))
        } else {
            seq!["/usr/local/share"@, "/usr/share"@]
        },
        Option::None => seq!["/usr/local/share"@, "/usr/share"@],
    }
}

/// The full search order, highest priority first.
pub open spec fn spec_base_dirs(
    data_home: Option<Seq<char>>,
    data_dirs: Option<Seq<char>>,
    home: Seq<char>,
) -> Seq<Seq<char>> {
    seq![user_data_dir(data_home, home)] + system_data_dirs(data_dirs)
}

/// The fixed flat directories of the pixmap fallback tier.
pub open spec fn spec_pixmap_dirs() -> Seq<Seq<char>> {
    seq!["/usr/share/pixmaps"@, "/usr/local/share/pixmaps"@]
}

/// The ordered base data directories, from the environment values the
/// caller read: the data-home override, the `:`-separated data-dirs
/// override, and the user's home directory. The result is never empty.
pub fn base_dirs(data_home: Option<&str>, data_dirs: Option<&str>, home: &str) -> (r: Vec<
    String,
>)
    ensures
        r.deep_view() == spec_base_dirs(data_home.deep_view(), data_dirs.deep_view(), home@),
        r.deep_view().len() >= 1,
{
    let mut out: Vec<String> = Vec::new();
    let user = match data_home {
        Option::Some(d) => {
            if d.unicode_len() > 0 {
                d.to_owned()
            } else {
                String::from_str(home).concat("/.local/share")
            }
        },
        Option::None => String::from_str(home).concat("/.local/share"),
    };
    out.push(user);
    match data_dirs {
        Option::Some(d) => {
            if d.unicode_len() > 0 {
                let raw = split_str(d, ':', ':');
                let ghost raw_v = raw.deep_view();
                let ghost base = out.deep_view();
                let mut i: usize = 0;
                proof {
                    assert(raw_v.take(0) =~= Seq::<Seq<char>>::empty());
                    assert(base + nonempty_items(raw_v.take(0)) =~= base);
                }
                while i < raw.len()
                    invariant
                        i <= raw.len(),
                        raw_v == raw.deep_view(),
                        out.deep_view() == base + nonempty_items(raw_v.take(i as int)),
                    decreases raw.len() - i,
                {
                    proof {
                        assert(raw_v.take(i + 1).drop_last() =~= raw_v.take(i as int));
                        assert(raw_v.take(i + 1).last() == raw_v[i as int]);
                    }
                    if raw[i].as_str().unicode_len() > 0 {
                        let ghost prev = out.deep_view();
                        let entry = raw[i].clone();
                        out.push(entry);
                        proof {
                            assert(out.deep_view() =~= prev.push(raw_v[i as int]));
                            assert(base + nonempty_items(raw_v.take(i + 1)) =~= out.deep_view());
                        }
                    }
                    i += 1;
                }
                proof {
                    assert(raw_v.take(raw_v.len() as int) =~= raw_v);
                }
            } else {
                out.push(String::from_str("/usr/local/share"));
                out.push(String::from_str("/usr/share"));
            }
        },
        Option::None => {
            out.push(String::from_str("/usr/local/share"));
            out.push(String::from_str("/usr/share"));
        },
    }
    proof {
        assert(out.deep_view() =~= spec_base_dirs(
            data_home.deep_view(),
            data_dirs.deep_view(),
            home@,
        ));
    }
    out
}

/// The fixed pixmap fallback directories, highest priority first.
pub fn pixmap_dirs() -> (r: Vec<String>)
    ensures
        r.deep_view() == spec_pixmap_dirs(),
{
    let mut out: Vec<String> = Vec::new();
    out.push(String::from_str("/usr/share/pixmaps"));
    out.push(String::from_str("/usr/local/share/pixmaps"));
    proof {
        assert(out.deep_view() =~= spec_pixmap_dirs());
    }
    out
}

} // verus!
