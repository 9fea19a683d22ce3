//! What the config file, `~/.config/termmd/config.toml`, can say.
//!
//! Every field is optional and mirrors a command-line flag. Precedence runs flags >
//! config > detected defaults, which is resolved in [`crate::cli`].
use vstd::prelude::*;

use crate::markdown::ir::opt_text;
use crate::markdown::rebase::{after_slash, joined_path};
use crate::source::{tail_trimmed, trim_tail};
use crate::text;

verus! {

/// A parsed config file.
#[derive(Debug, PartialEq, Eq)]
pub struct Config {
    /// Built-in theme name, or a path to a theme file.
    pub theme: Option<String>,
    /// Theme to use when the terminal background is light.
    pub light_theme: Option<String>,
    /// Theme to use when the terminal background is dark.
    pub dark_theme: Option<String>,
    /// `syntect` theme for code blocks.
    pub syntax_theme: Option<String>,
    /// Hard column limit for text.
    pub width: Option<usize>,
    /// Left and right margin, in columns.
    pub margin: Option<usize>,
    /// Columns a tab expands to in code blocks.
    pub tab_width: Option<usize>,
    /// Use the interactive pager when stdout is a terminal.
    pub pager: Option<bool>,
    /// Enable mouse wheel scrolling in the pager.
    pub mouse: Option<bool>,
    pub images: Option<bool>,
    /// `auto`, `kitty`, `iterm2`, `sixel`, `blocks`, `none`.
    pub image_protocol: Option<String>,
    /// Allow fetching `http(s)` images.
    pub remote_images: Option<bool>,
    pub max_image_rows: Option<u16>,
    pub center_figures: Option<bool>,
    /// `auto`, `hyperlink`, `inline`, `reference`, `hide`.
    pub links: Option<String>,
    /// `auto`, `always`, `never`, `16`, `256`, `truecolor`.
    pub color: Option<String>,
    /// `auto`, `ascii`, `extended`, `full`.
    pub unicode: Option<String>,
    pub line_numbers: Option<bool>,
    pub heading_rules: Option<bool>,
    pub smart_punctuation: Option<bool>,
    /// Probe the terminal for capabilities at startup.
    pub probe: Option<bool>,
}

/// The config that says nothing.
pub open spec fn silent() -> Config {
    Config {
        theme: None,
        light_theme: None,
        dark_theme: None,
        syntax_theme: None,
        width: None,
        margin: None,
        tab_width: None,
        pager: None,
        mouse: None,
        images: None,
        image_protocol: None,
        remote_images: None,
        max_image_rows: None,
        center_figures: None,
        links: None,
        color: None,
        unicode: None,
        line_numbers: None,
        heading_rules: None,
        smart_punctuation: None,
        probe: None,
    }
}

impl Default for Config {
    fn default() -> (r: Config)
        ensures
            r == silent(),
    {
        Config {
            theme: None,
            light_theme: None,
            dark_theme: None,
            syntax_theme: None,
            width: None,
            margin: None,
            tab_width: None,
            pager: None,
            mouse: None,
            images: None,
            image_protocol: None,
            remote_images: None,
            max_image_rows: None,
            center_figures: None,
            links: None,
            color: None,
            unicode: None,
            line_numbers: None,
            heading_rules: None,
            smart_punctuation: None,
            probe: None,
        }
    }
}

/// `tail` under `dir`.
pub open spec fn under(dir: Seq<char>, tail: Seq<char>) -> Seq<char> {
    joined_path(dir, tail)
}

fn join(dir: &str, tail: &str) -> (r: String)
    ensures
        r@ == under(dir@, tail@),
{
    let v = text::chars_of(dir);
    let mut out = text::owned(dir);
    if !(v.len() == 0 || v[v.len() - 1] == '/') {
        out.push_str("/");
    }
    out.push_str(tail);
    out
}

pub open spec fn opt_str(o: Option<&str>) -> Option<Seq<char>> {
    match o {
        Some(s) => Some(s@),
        None => None,
    }
}

/// Where the config file lives: where `TERMMD_CONFIG` says, else under
/// `XDG_CONFIG_HOME`, else under the user's own config directory.
pub open spec fn config_file(
    explicit: Option<Seq<char>>,
    xdg: Option<Seq<char>>,
    config_dir: Option<Seq<char>>,
) -> Option<Seq<char>> {
    match (explicit, xdg, config_dir) {
        (Some(path), _, _) => Some(path),
        (None, Some(dir), _) => Some(under(under(dir, "termmd"@), "config.toml"@)),
        (None, None, Some(dir)) => Some(under(under(dir, "termmd"@), "config.toml"@)),
        (None, None, None) => None,
    }
}

/// The directory of theme files beside a config file.
pub open spec fn themes_beside(path: Seq<char>) -> Option<Seq<char>> {
    let t = tail_trimmed(path);
    if t.len() == 0 || t == "/"@ {
        None
    } else {
        let i = after_slash(t, t.len() as int);
        Some(
            under(
                if i == 0 {
                    ""@
                } else {
                    tail_trimmed(t.subrange(0, i))
                },
                "themes"@,
            ),
        )
    }
}

impl Config {
    /// Where the config file lives, given `TERMMD_CONFIG`, `XDG_CONFIG_HOME` and the
    /// user's config directory.
    pub fn path(explicit: Option<&str>, xdg: Option<&str>, config_dir: Option<&str>) -> (r: Option<
        String,
    >)
        ensures
            opt_text(r) == config_file(opt_str(explicit), opt_str(xdg), opt_str(config_dir)),
    {
        match explicit {
            Some(path) => Some(text::owned(path)),
            None => match xdg {
                Some(dir) => Some(join(&join(dir, "termmd"), "config.toml")),
                None => match config_dir {
                    Some(dir) => Some(join(&join(dir, "termmd"), "config.toml")),
                    None => None,
                },
            },
        }
    }

    /// The directory theme files are looked up in.
    pub fn theme_dir(path: &str) -> (r: Option<String>)
        ensures
            opt_text(r) == themes_beside(path@),
    {
        let v = text::chars_of(path);
        assert(v@.subrange(0, v@.len() as int) =~= v@);
        let t = trim_tail(&v, v.len());
        let ghost kept = v@.subrange(0, t as int);
        proof {
            reveal_strlit("/");
        }
        if t == 0 {
            return None;
        }
        if t == 1 && v[0] == '/' {
            assert(kept =~= "/"@);
            return None;
        }
        assert(kept != "/"@) by {
            if kept == "/"@ {
                assert(kept[0] == '/');
            }
        }
        let mut n: usize = t;
        while n > 0 && v[n - 1] != '/'
            invariant
                n <= t <= v.len(),
                kept == v@.subrange(0, t as int),
                after_slash(kept, n as int) == after_slash(kept, t as int),
            decreases n,
        {
            n = n - 1;
        }
        if n == 0 {
            return Some(join("", "themes"));
        }
        assert(kept.subrange(0, n as int) =~= v@.subrange(0, n as int));
        let d = trim_tail(&v, n);
        Some(join(&text::string_of_range(&v, 0, d), "themes"))
    }
}

} // verus!
