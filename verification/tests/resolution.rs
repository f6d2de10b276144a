//! End-to-end resolution scenarios, driven against a mock filesystem.

use hyprdashboard::cache::ResolutionCache;
use hyprdashboard::resolver::{Action, Event, Resolver};

/// A mock filesystem: the set of existing files, the readable index files
/// with their contents, and counters for every probe and index read.
struct FakeFs {
    files: Vec<String>,
    indexes: Vec<(String, String)>,
    probes: usize,
    reads: usize,
}

impl FakeFs {
    fn new() -> FakeFs {
        FakeFs { files: Vec::new(), indexes: Vec::new(), probes: 0, reads: 0 }
    }

    fn file(mut self, path: &str) -> FakeFs {
        self.files.push(String::from(path));
        self
    }

    fn index(mut self, path: &str, content: &str) -> FakeFs {
        self.indexes.push((String::from(path), String::from(content)));
        self
    }

    fn run(
        &mut self,
        name: &str,
        hint: Option<&str>,
        bases: &[&str],
        pixmaps: &[&str],
        bare_base: bool,
    ) -> Option<String> {
        let bases_v: Vec<String> = bases.iter().map(|b| String::from(*b)).collect();
        let pixmaps_v: Vec<String> = pixmaps.iter().map(|p| String::from(*p)).collect();
        let (mut r, mut a) = Resolver::new(String::from(name), hint, bases_v, pixmaps_v, bare_base);
        loop {
            match a {
                Action::Probe(p) => {
                    self.probes += 1;
                    let e = self.files.iter().any(|f| f == &p);
                    a = r.step(Event::FileExists(e));
                }
                Action::ReadIndex(p) => {
                    self.reads += 1;
                    let c = self
                        .indexes
                        .iter()
                        .find(|(k, _)| k == &p)
                        .map(|(_, v)| v.clone());
                    a = r.step(Event::IndexContent(c));
                }
                Action::Done(res) => return res,
            }
        }
    }
}

#[test]
fn absolute_path_returned_unchanged() {
    let mut fs = FakeFs::new().file("/opt/icons/special.png");
    let r = fs.run("/opt/icons/special.png", None, &["/usr/share"], &[], false);
    assert_eq!(r, Some(String::from("/opt/icons/special.png")));
    // One existence probe, no theme search at all.
    assert_eq!(fs.probes, 1);
    assert_eq!(fs.reads, 0);
}

#[test]
fn absolute_path_missing_falls_through() {
    let mut fs = FakeFs::new();
    let r = fs.run("/opt/icons/gone.png", None, &["/usr/share"], &[], false);
    assert_eq!(r, None);
}

#[test]
fn unresolvable_name_is_a_confirmed_miss() {
    let mut fs = FakeFs::new();
    let r = fs.run("no-such-icon", None, &["/usr/share"], &["/usr/share/pixmaps"], true);
    assert_eq!(r, None);
}

#[test]
fn cached_miss_skips_the_filesystem() {
    let mut fs = FakeFs::new();
    let mut cache = ResolutionCache::new();

    let r = fs.run("ghost", None, &["/usr/share"], &["/usr/share/pixmaps"], false);
    assert_eq!(r, None);
    cache.put(String::from("ghost"), String::new(), r.clone());
    let probes_after_first = fs.probes;
    let reads_after_first = fs.reads;

    // The second request is answered by the cache alone.
    let hit = cache.get("ghost", "");
    assert_eq!(hit, Some(None));
    assert_eq!(fs.probes, probes_after_first);
    assert_eq!(fs.reads, reads_after_first);
}

#[test]
fn cached_hit_returns_the_stored_path() {
    let mut cache = ResolutionCache::new();
    cache.put(
        String::from("term"),
        String::from("Adwaita"),
        Some(String::from("/usr/share/icons/Adwaita/48x48/apps/term.png")),
    );
    assert_eq!(
        cache.get("term", "Adwaita"),
        Some(Some(String::from("/usr/share/icons/Adwaita/48x48/apps/term.png")))
    );
    // A different hint is a different key.
    assert_eq!(cache.get("term", ""), None);
}

#[test]
fn inherited_theme_scalable_dir_is_reached() {
    // The hinted theme inherits one theme, which inherits another; only the
    // farthest ancestor holds the icon, in its scalable/apps directory.
    let mut fs = FakeFs::new()
        .index("/usr/share/icons/Alpha/index.theme", "Inherits=Beta\n")
        .index("/usr/share/icons/Beta/index.theme", "Inherits=Gamma\n")
        .index("/usr/share/icons/Gamma/index.theme", "Directories=\n")
        .file("/usr/share/icons/Gamma/scalable/apps/deep.svg");
    let r = fs.run("deep", Some("Alpha"), &["/usr/share"], &[], false);
    assert_eq!(r, Some(String::from("/usr/share/icons/Gamma/scalable/apps/deep.svg")));
}

#[test]
fn hinted_theme_beats_hicolor() {
    let mut fs = FakeFs::new()
        .index("/usr/share/icons/hicolor/index.theme", "Directories=48x48/apps\n")
        .index("/usr/share/icons/Paper/index.theme", "Directories=48x48/apps\n")
        .file("/usr/share/icons/hicolor/48x48/apps/editor.png")
        .file("/usr/share/icons/Paper/48x48/apps/editor.png");
    let r = fs.run("editor", Some("Paper"), &["/usr/share"], &[], false);
    assert_eq!(r, Some(String::from("/usr/share/icons/Paper/48x48/apps/editor.png")));
}

#[test]
fn inherited_parent_beats_hicolor() {
    // hicolor is the terminus: a theme inherited by the hint is searched
    // before it, even though hicolor also holds the icon.
    let mut fs = FakeFs::new()
        .index("/usr/share/icons/Child/index.theme", "Inherits=Parent\n")
        .index("/usr/share/icons/Parent/index.theme", "Directories=48x48/apps\n")
        .index("/usr/share/icons/hicolor/index.theme", "Directories=48x48/apps\n")
        .file("/usr/share/icons/Parent/48x48/apps/shared.png")
        .file("/usr/share/icons/hicolor/48x48/apps/shared.png");
    let r = fs.run("shared", Some("Child"), &["/usr/share"], &[], false);
    assert_eq!(r, Some(String::from("/usr/share/icons/Parent/48x48/apps/shared.png")));
}

#[test]
fn no_hint_falls_back_to_hicolor() {
    let mut fs = FakeFs::new()
        .index("/usr/share/icons/hicolor/index.theme", "Directories=48x48/apps\n")
        .file("/usr/share/icons/hicolor/48x48/apps/editor.png");
    let r = fs.run("editor", None, &["/usr/share"], &[], false);
    assert_eq!(r, Some(String::from("/usr/share/icons/hicolor/48x48/apps/editor.png")));
}

#[test]
fn png_preferred_over_svg_in_same_directory() {
    let mut fs = FakeFs::new()
        .index("/usr/share/icons/hicolor/index.theme", "Directories=48x48/apps\n")
        .file("/usr/share/icons/hicolor/48x48/apps/dual.svg")
        .file("/usr/share/icons/hicolor/48x48/apps/dual.png");
    for _ in 0..3 {
        let r = fs.run("dual", None, &["/usr/share"], &[], false);
        assert_eq!(r, Some(String::from("/usr/share/icons/hicolor/48x48/apps/dual.png")));
    }
}

#[test]
fn directory_order_beats_extension_preference() {
    // An svg in the first declared directory wins over a png in the second.
    let mut fs = FakeFs::new()
        .index(
            "/usr/share/icons/hicolor/index.theme",
            "Directories=scalable/apps,48x48/apps\n",
        )
        .file("/usr/share/icons/hicolor/scalable/apps/pick.svg")
        .file("/usr/share/icons/hicolor/48x48/apps/pick.png");
    let r = fs.run("pick", None, &["/usr/share"], &[], false);
    assert_eq!(r, Some(String::from("/usr/share/icons/hicolor/scalable/apps/pick.svg")));
}

#[test]
fn resolve_twice_same_answer() {
    let fs0 = || {
        FakeFs::new()
            .index("/usr/share/icons/hicolor/index.theme", "Directories=48x48/apps\n")
            .file("/usr/share/icons/hicolor/48x48/apps/stable.png")
    };
    let mut first = fs0();
    let mut second = fs0();
    let r1 = first.run("stable", Some("Nope"), &["/usr/share", "/usr/local/share"], &[], true);
    let r2 = second.run("stable", Some("Nope"), &["/usr/share", "/usr/local/share"], &[], true);
    assert_eq!(r1, r2);
    assert_eq!(first.probes, second.probes);
    assert_eq!(first.reads, second.reads);
}

#[test]
fn inheritance_cycle_terminates_without_duplicate_reads() {
    let mut fs = FakeFs::new()
        .index("/usr/share/icons/Ouro/index.theme", "Inherits=Boros\n")
        .index("/usr/share/icons/Boros/index.theme", "Inherits=Ouro\n")
        .index("/usr/share/icons/hicolor/index.theme", "Directories=\n");
    let r = fs.run("nothing", Some("Ouro"), &["/usr/share"], &[], false);
    assert_eq!(r, None);
    // Three themes, one base directory: exactly three index reads, no
    // matter how the cycle loops back.
    assert_eq!(fs.reads, 3);
}

#[test]
fn diamond_inheritance_reads_each_theme_once() {
    let mut fs = FakeFs::new()
        .index("/usr/share/icons/Top/index.theme", "Inherits=Left,Right\n")
        .index("/usr/share/icons/Left/index.theme", "Inherits=Base\n")
        .index("/usr/share/icons/Right/index.theme", "Inherits=Base\n")
        .index("/usr/share/icons/Base/index.theme", "Directories=\n");
    let r = fs.run("nothing", Some("Top"), &["/usr/share"], &[], false);
    assert_eq!(r, None);
    // Top, Left, Right, Base, hicolor: five reads, Base only once.
    assert_eq!(fs.reads, 5);
}

#[test]
fn pixmap_fallback_found() {
    let mut fs = FakeFs::new().file("/usr/share/pixmaps/legacy.xpm");
    let r = fs.run("legacy", None, &["/usr/share"], &["/usr/share/pixmaps"], false);
    assert_eq!(r, Some(String::from("/usr/share/pixmaps/legacy.xpm")));
}

#[test]
fn themed_icon_beats_pixmap_fallback() {
    let mut fs = FakeFs::new()
        .index("/usr/share/icons/hicolor/index.theme", "Directories=48x48/apps\n")
        .file("/usr/share/icons/hicolor/48x48/apps/both.png")
        .file("/usr/share/pixmaps/both.png");
    let r = fs.run("both", None, &["/usr/share"], &["/usr/share/pixmaps"], false);
    assert_eq!(r, Some(String::from("/usr/share/icons/hicolor/48x48/apps/both.png")));
}

#[test]
fn bare_base_tier_only_when_enabled() {
    let make = || FakeFs::new().file("/usr/share/odd.png");
    let mut with = make();
    let r = with.run("odd", None, &["/usr/share"], &[], true);
    assert_eq!(r, Some(String::from("/usr/share/odd.png")));
    let mut without = make();
    let r2 = without.run("odd", None, &["/usr/share"], &[], false);
    assert_eq!(r2, None);
}

#[test]
fn second_base_directory_is_searched() {
    let mut fs = FakeFs::new()
        .index("/usr/local/share/icons/hicolor/index.theme", "Directories=48x48/apps\n")
        .file("/usr/local/share/icons/hicolor/48x48/apps/town.png");
    let r = fs.run("town", None, &["/usr/share", "/usr/local/share"], &[], false);
    assert_eq!(r, Some(String::from("/usr/local/share/icons/hicolor/48x48/apps/town.png")));
}
