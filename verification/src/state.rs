//! The launcher's own state: the configuration, the discovered
//! applications, and the extraction of an application's fields from its
//! desktop-entry text. Enumerating the entry files and rendering the grid
//! are the surrounding program's business; this module holds what can be
//! computed from plain values.

use vstd::prelude::*;
use vstd::string::*;

use crate::order::{apps_sorted, sort_apps};
use crate::text::{has_prefix, is_prefix, split_on, split_str, suffix_from};
use crate::theme_index::line_seps;

verus! {

/// The user configuration: the preferred icon theme, if any.
pub struct Config {
    pub icon_theme: Option<String>,
}

/// One launchable application: its display name, its command line, and
/// its resolved icon path, if an icon was found.
pub struct AppInfo {
    pub name: String,
    pub exec_cmd: String,
    pub icon: Option<String>,
}

/// The launcher's state: the configuration, the applications to show, and
/// which page is visible.
pub struct Dashboard {
    pub config: Config,
    pub apps: Vec<AppInfo>,
    pub show_settings: bool,
}

impl Dashboard {
    /// A dashboard showing the given applications in display order —
    /// ascending by lowercased name — opened on the launcher page.
    pub fn new(config: Config, apps: Vec<AppInfo>) -> (d: Dashboard)
        ensures
            d.config == config,
            d.show_settings == false,
            apps_sorted(d.apps@),
            d.apps@.to_multiset() == apps@.to_multiset(),
    {
        Dashboard { config, apps: sort_apps(apps), show_settings: false }
    }

    /// Flips between the launcher grid and the settings page; nothing else
    /// changes.
    pub fn toggle_settings(&mut self)
        ensures
            final(self).show_settings == !old(self).show_settings,
            final(self).config == old(self).config,
            final(self).apps == old(self).apps,
    {
        self.show_settings = !self.show_settings;
    }
}

/// The value of the first line carrying the key, or empty when none does.
pub open spec fn first_value(lines: Seq<Seq<char>>, key: Seq<char>) -> Seq<char>
    decreases lines.len(),
{
    if lines.len() == 0 {
        Seq::empty()
    } else if is_prefix(key, lines[0]) {
        lines[0].skip(key.len() as int)
    } else {
        first_value(lines.drop_first(), key)
    }
}

fn first_key_value(lines: &Vec<String>, key: &str) -> (r: String)
    ensures
        r@ == first_value(lines.deep_view(), key@),
{
    let ghost lv = lines.deep_view();
    let klen = key.unicode_len();
    let mut i: usize = 0;
    proof {
        assert(lv.skip(0) =~= lv);
    }
    while i < lines.len()
        invariant
            i <= lines@.len(),
            lv == lines.deep_view(),
            klen == key@.len(),
            first_value(lv, key@) == first_value(lv.skip(i as int), key@),
        decreases lines@.len() - i,
    {
        proof {
            assert(lv.skip(i as int)[0] == lv[i as int]);
            assert(lv.skip(i as int).drop_first() =~= lv.skip(i as int + 1));
        }
        if has_prefix(lines[i].as_str(), key) {
            return suffix_from(lines[i].as_str(), klen);
        }
        i += 1;
    }
    proof {
        assert(lv.skip(lv.len() as int) =~= Seq::<Seq<char>>::empty());
    }
    String::new()
}

/// The `Name=`, `Exec=` and `Icon=` values of one desktop-entry text, in
/// that order: for each key, the remainder of the first line that starts
/// with it, or the empty string when no line does.
pub fn desktop_entry_fields(content: &str) -> (r: (String, String, String))
    ensures
        r.0@ == first_value(split_on(content@, line_seps()), "Name="@),
        r.1@ == first_value(split_on(content@, line_seps()), "Exec="@),
        r.2@ == first_value(split_on(content@, line_seps()), "Icon="@),
{
    let lines = split_str(content, '\n', '\n');
    let name = first_key_value(&lines, "Name=");
    let exec = first_key_value(&lines, "Exec=");
    let icon = first_key_value(&lines, "Icon=");
    (name, exec, icon)
}

} // verus!
