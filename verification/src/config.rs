//! User settings from `config.toml`, and what they decide: the popup's theme,
//! how many rows it shows, and where user specs are read from.
use vstd::prelude::*;
use crate::text::{chars_of, concat_chars, string_from_chars};
use crate::ui::render::Theme;

verus! {

/// The settings a user may give; each one left out keeps its default.
pub struct Config {
    pub max_visible: Option<usize>,
    pub specs_dir: Option<String>,
    /// Show a description panel to the right of the popup for the selected item.
    pub show_description_panel: Option<bool>,
}

impl Default for Config {
    fn default() -> (r: Self)
        ensures
            r.max_visible is None,
            r.specs_dir is None,
            r.show_description_panel is None,
    {
        Config { max_visible: None, specs_dir: None, show_description_panel: None }
    }
}

/// `base` with `part` appended as one more path component: a `/` goes
/// between them unless `base` is empty or already ends with one.
pub open spec fn path_join(base: Seq<char>, part: Seq<char>) -> Seq<char> {
    if base.len() == 0 || base.last() == '/' {
        base + part
    } else {
        base + seq!['/'] + part
    }
}

/// `melon/specs` under the local data directory, or under `.` when there is none.
pub open spec fn default_specs_dir(data_local_dir: Option<Seq<char>>) -> Seq<char> {
    let base = match data_local_dir {
        Some(d) => d,
        None => seq!['.'],
    };
    path_join(path_join(base, seq!['m', 'e', 'l', 'o', 'n']), seq!['s', 'p', 'e', 'c', 's'])
}

fn join_component(base: &Vec<char>, part: &Vec<char>) -> (r: Vec<char>)
    ensures
        r@ == path_join(base@, part@),
{
    if base.len() == 0 || base[base.len() - 1] == '/' {
        concat_chars(base, part)
    } else {
        let with_sep = concat_chars(base, &vec!['/']);
        assert(with_sep@ == base@ + seq!['/']);
        concat_chars(&with_sep, part)
    }
}

impl Config {
    /// The popup theme: the default one, with the description panel on or off
    /// as configured.
    pub fn theme(&self) -> (t: Theme)
        ensures
            t.max_visible == 8,
            t.min_width == 20,
            t.max_width == 60,
            t.show_description_panel == match self.show_description_panel {
                Some(v) => v,
                None => false,
            },
    {
        let mut theme = Theme::default();
        if let Some(v) = self.show_description_panel {
            theme.show_description_panel = v;
        }
        theme
    }

    /// How many rows the popup shows at most: the configured number, else
    /// the theme's.
    pub fn max_visible_or(&self, theme: &Theme) -> (n: usize)
        ensures
            n == match self.max_visible {
                Some(v) => v,
                None => theme.max_visible,
            },
    {
        match self.max_visible {
            Some(v) => v,
            None => theme.max_visible,
        }
    }

    /// Where user specs are read from: the configured directory, else
    /// `melon/specs` under `data_local_dir` (the platform's local data
    /// directory, `None` where it has none).
    pub fn specs_dir(&self, data_local_dir: Option<String>) -> (dir: String)
        ensures
            dir@ == match self.specs_dir {
                Some(d) => d@,
                None => default_specs_dir(
                    match data_local_dir {
                        Some(b) => Some(b@),
                        None => None,
                    },
                ),
            },
    {
        match &self.specs_dir {
            Some(d) => string_from_chars(&chars_of(d.as_str())),
            None => {
                let base = match &data_local_dir {
                    Some(b) => chars_of(b.as_str()),
                    None => vec!['.'],
                };
                let with_app = join_component(&base, &vec!['m', 'e', 'l', 'o', 'n']);
                let dir = join_component(&with_app, &vec!['s', 'p', 'e', 'c', 's']);
                string_from_chars(&dir)
            },
        }
    }
}

} // verus!
