//! Construction of the concrete file paths a resolution probes: theme index
//! paths, themed icon candidates (every declared subdirectory crossed with
//! the fixed extension preference `png`, `svg`, `xpm`, then a conventional
//! `scalable/apps` fallback), and flat per-directory candidates for the
//! pixmap and bare-base tiers.

use vstd::prelude::*;
use vstd::string::*;

verus! {

/// `a/b`.
pub open spec fn s_path(a: Seq<char>, b: Seq<char>) -> Seq<char> {
    a + "/"@ + b
}

/// The directory a theme occupies under one base data directory.
pub open spec fn s_theme_dir(base: Seq<char>, theme: Seq<char>) -> Seq<char> {
    base + "/icons/"@ + theme
}

/// The index descriptor path of a theme under one base data directory.
pub open spec fn s_index_path(base: Seq<char>, theme: Seq<char>) -> Seq<char> {
    base + "/icons/"@ + theme + "/index.theme"@
}

/// `dir/name.ext`.
pub open spec fn s_cand(dir: Seq<char>, name: Seq<char>, ext: Seq<char>) -> Seq<char> {
    dir + "/"@ + name + "."@ + ext
}

/// The three candidates of one directory, in extension preference order:
/// `png` first, then `svg`, then `xpm`.
pub open spec fn dir_cands(dir: Seq<char>, name: Seq<char>) -> Seq<Seq<char>> {
    seq![s_cand(dir, name, "png"@), s_cand(dir, name, "svg"@), s_cand(dir, name, "xpm"@)]
}

/// The candidates of the declared subdirectories of one theme directory, in
/// declaration order.
pub open spec fn sub_dir_cands(td: Seq<char>, dirs: Seq<Seq<char>>, name: Seq<char>) -> Seq<
    Seq<char>,
>
    decreases dirs.len(),
{
    if dirs.len() == 0 {
        Seq::empty()
    } else {
        sub_dir_cands(td, dirs.drop_last(), name) + dir_cands(s_path(td, dirs.last()), name)
    }
}

/// Every candidate one theme directory offers: the declared subdirectories
/// first, then the `scalable/apps` fallback.
pub open spec fn theme_cands(td: Seq<char>, dirs: Seq<Seq<char>>, name: Seq<char>) -> Seq<
    Seq<char>,
> {
    sub_dir_cands(td, dirs, name) + dir_cands(s_path(td, "scalable/apps"@), name)
}

/// The candidates of a flat directory list, one directory after the other.
pub open spec fn flat_cands(dirs: Seq<Seq<char>>, name: Seq<char>) -> Seq<Seq<char>>
    decreases dirs.len(),
{
    if dirs.len() == 0 {
        Seq::empty()
    } else {
        flat_cands(dirs.drop_last(), name) + dir_cands(dirs.last(), name)
    }
}

/// Extension preference: for every subdirectory of a theme, the `png`
/// candidate stands immediately before the `svg` candidate, which stands
/// immediately before the `xpm` candidate, so an existing `png` is always
/// found first.
pub proof fn lemma_extension_order(td: Seq<char>, dirs: Seq<Seq<char>>, name: Seq<char>)
    ensures
        sub_dir_cands(td, dirs, name).len() == 3 * dirs.len(),
        forall|i: int|
            0 <= i < dirs.len() ==> {
                let c = sub_dir_cands(td, dirs, name);
                let d = s_path(td, #[trigger] dirs[i]);
                c[3 * i] == s_cand(d, name, "png"@) && c[3 * i + 1] == s_cand(d, name, "svg"@)
                    && c[3 * i + 2] == s_cand(d, name, "xpm"@)
            },
    decreases dirs.len(),
{
    if dirs.len() > 0 {
        lemma_extension_order(td, dirs.drop_last(), name);
        assert(dirs.drop_last().len() == dirs.len() - 1);
        assert forall|i: int| 0 <= i < dirs.len() - 1 implies dirs.drop_last()[i] == dirs[i] by {}
    }
}

/// `a/b` as a `String`.
pub fn build_path(a: &str, b: &str) -> (r: String)
    ensures
        r@ == s_path(a@, b@),
{
    String::from_str(a).concat("/").concat(b)
}

/// The index descriptor path of `theme` under `base`.
pub fn build_index_path(base: &str, theme: &str) -> (r: String)
    ensures
        r@ == s_index_path(base@, theme@),
{
    String::from_str(base).concat("/icons/").concat(theme).concat("/index.theme")
}

/// The directory of `theme` under `base`.
pub fn build_theme_dir(base: &str, theme: &str) -> (r: String)
    ensures
        r@ == s_theme_dir(base@, theme@),
{
    String::from_str(base).concat("/icons/").concat(theme)
}

fn build_cand(dir: &str, name: &str, ext: &str) -> (r: String)
    ensures
        r@ == s_cand(dir@, name@, ext@),
{
    String::from_str(dir).concat("/").concat(name).concat(".").concat(ext)
}

/// Pushes the three candidates of `dir` onto `out` in extension order.
fn push_dir_cands(out: &mut Vec<String>, dir: &str, name: &str)
    ensures
        final(out).deep_view() == old(out).deep_view() + dir_cands(dir@, name@),
{
    let ghost prev = out.deep_view();
    out.push(build_cand(dir, name, "png"));
    out.push(build_cand(dir, name, "svg"));
    out.push(build_cand(dir, name, "xpm"));
    proof {
        assert(out.deep_view() =~= prev + dir_cands(dir@, name@));
    }
}

/// All candidates of one theme directory, given its declared
/// subdirectories: declaration order first, `scalable/apps` fallback last.
pub fn build_theme_cands(td: &str, dirs: &Vec<String>, name: &str) -> (r: Vec<String>)
    ensures
        r.deep_view() == theme_cands(td@, dirs.deep_view(), name@),
{
    let ghost dirs_v = dirs.deep_view();
    let mut out: Vec<String> = Vec::new();
    let mut i: usize = 0;
    proof {
        assert(dirs_v.take(0) =~= Seq::<Seq<char>>::empty());
        assert(out.deep_view() =~= sub_dir_cands(td@, dirs_v.take(0), name@));
    }
    while i < dirs.len()
        invariant
            i <= dirs.len(),
            dirs_v == dirs.deep_view(),
            out.deep_view() == sub_dir_cands(td@, dirs_v.take(i as int), name@),
        decreases dirs.len() - i,
    {
        let d = build_path(td, dirs[i].as_str());
        push_dir_cands(&mut out, d.as_str(), name);
        proof {
            assert(dirs_v.take(i + 1).drop_last() =~= dirs_v.take(i as int));
            assert(dirs_v.take(i + 1).last() == dirs_v[i as int]);
        }
        i += 1;
    }
    proof {
        assert(dirs_v.take(dirs_v.len() as int) =~= dirs_v);
    }
    let fb = build_path(td, "scalable/apps");
    push_dir_cands(&mut out, fb.as_str(), name);
    out
}

/// The candidates of a flat directory list, for the pixmap and bare-base
/// fallback tiers.
pub fn build_flat_cands(dirs: &Vec<String>, name: &str) -> (r: Vec<String>)
    ensures
        r.deep_view() == flat_cands(dirs.deep_view(), name@),
{
    let ghost dirs_v = dirs.deep_view();
    let mut out: Vec<String> = Vec::new();
    let mut i: usize = 0;
    proof {
        assert(dirs_v.take(0) =~= Seq::<Seq<char>>::empty());
        assert(out.deep_view() =~= flat_cands(dirs_v.take(0), name@));
    }
    while i < dirs.len()
        invariant
            i <= dirs.len(),
            dirs_v == dirs.deep_view(),
            out.deep_view() == flat_cands(dirs_v.take(i as int), name@),
        decreases dirs.len() - i,
    {
        push_dir_cands(&mut out, dirs[i].as_str(), name);
        proof {
            assert(dirs_v.take(i + 1).drop_last() =~= dirs_v.take(i as int));
            assert(dirs_v.take(i + 1).last() == dirs_v[i as int]);
        }
        i += 1;
    }
    proof {
        assert(dirs_v.take(dirs_v.len() as int) =~= dirs_v);
    }
    out
}

} // verus!
