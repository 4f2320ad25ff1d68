//! The app's user-editable theme: two palettes of semantic color roles,
//! built-in defaults, how a theme file's tables override them, and what a
//! valid color is. Reading and watching the file live with the app.

use vstd::prelude::*;
use crate::text::{chars_of, string_views};

verus! {

/// One palette: a color per semantic UI role. A role's key in the theme
/// file is its name in kebab case (`on_accent` is `on-accent`).
#[derive(Debug, Clone, PartialEq)]
pub struct Palette {
    pub bg: String,
    pub panel: String,
    pub raised: String,
    pub overlay: String,
    pub fg: String,
    pub muted: String,
    pub subtle: String,
    pub disabled: String,
    pub on_accent: String,
    pub border: String,
    pub hover: String,
    pub cursor: String,
    pub marked: String,
    pub accent: String,
    pub success: String,
    pub warning: String,
    pub danger: String,
    pub info: String,
    pub link: String,
    pub progress_active: String,
    pub progress_done: String,
    pub progress_idle: String,
    pub progress_error: String,
    pub scrollbar: String,
    pub scrollbar_active: String,
    pub backdrop: String,
}

/// Both variants of the theme.
#[derive(Debug, Clone, PartialEq)]
pub struct Theme {
    pub dark: Palette,
    pub light: Palette,
}

/// The role keys, in the order the theme file's tables list them (sorted).
pub open spec fn role_keys() -> Seq<Seq<char>> {
    seq![
        "accent"@,
        "backdrop"@,
        "bg"@,
        "border"@,
        "cursor"@,
        "danger"@,
        "disabled"@,
        "fg"@,
        "hover"@,
        "info"@,
        "link"@,
        "marked"@,
        "muted"@,
        "on-accent"@,
        "overlay"@,
        "panel"@,
        "progress-active"@,
        "progress-done"@,
        "progress-error"@,
        "progress-idle"@,
        "raised"@,
        "scrollbar"@,
        "scrollbar-active"@,
        "subtle"@,
        "success"@,
        "warning"@,
    ]
}

/// A palette's colors, in `role_keys` order.
pub open spec fn palette_colors(p: Palette) -> Seq<Seq<char>> {
    seq![
        p.accent@,
        p.backdrop@,
        p.bg@,
        p.border@,
        p.cursor@,
        p.danger@,
        p.disabled@,
        p.fg@,
        p.hover@,
        p.info@,
        p.link@,
        p.marked@,
        p.muted@,
        p.on_accent@,
        p.overlay@,
        p.panel@,
        p.progress_active@,
        p.progress_done@,
        p.progress_error@,
        p.progress_idle@,
        p.raised@,
        p.scrollbar@,
        p.scrollbar_active@,
        p.subtle@,
        p.success@,
        p.warning@,
    ]
}

/// The role keys, in `role_keys` order.
pub fn role_key_list() -> (r: Vec<&'static str>)
    ensures
        r@.len() == role_keys().len(),
        forall|i: int| 0 <= i < r@.len() ==> #[trigger] r@[i]@ == role_keys()[i],
{
    let r = vec![
        "accent",
        "backdrop",
        "bg",
        "border",
        "cursor",
        "danger",
        "disabled",
        "fg",
        "hover",
        "info",
        "link",
        "marked",
        "muted",
        "on-accent",
        "overlay",
        "panel",
        "progress-active",
        "progress-done",
        "progress-error",
        "progress-idle",
        "raised",
        "scrollbar",
        "scrollbar-active",
        "subtle",
        "success",
        "warning",
    ];
    proof {
        assert(r@.len() == role_keys().len());
    }
    r
}

impl Palette {
    /// The colors in `role_keys` order.
    pub fn colors(&self) -> (r: Vec<String>)
        ensures
            string_views(r@) == palette_colors(*self),
            r@.len() == role_keys().len(),
    {
        let r = vec![
            self.accent.clone(),
            self.backdrop.clone(),
            self.bg.clone(),
            self.border.clone(),
            self.cursor.clone(),
            self.danger.clone(),
            self.disabled.clone(),
            self.fg.clone(),
            self.hover.clone(),
            self.info.clone(),
            self.link.clone(),
            self.marked.clone(),
            self.muted.clone(),
            self.on_accent.clone(),
            self.overlay.clone(),
            self.panel.clone(),
            self.progress_active.clone(),
            self.progress_done.clone(),
            self.progress_error.clone(),
            self.progress_idle.clone(),
            self.raised.clone(),
            self.scrollbar.clone(),
            self.scrollbar_active.clone(),
            self.subtle.clone(),
            self.success.clone(),
            self.warning.clone(),
        ];
        assert(string_views(r@) =~= palette_colors(*self));
        assert(r@.len() == string_views(r@).len());
        r
    }

    /// The palette with these colors, in `role_keys` order.
    pub fn from_colors(c: Vec<String>) -> (r: Palette)
        requires
            c@.len() == role_keys().len(),
        ensures
            palette_colors(r) == string_views(c@),
    {
        let ghost orig = string_views(c@);
        let mut c = c;
        let warning = c.pop().unwrap();
        let success = c.pop().unwrap();
        let subtle = c.pop().unwrap();
        let scrollbar_active = c.pop().unwrap();
        let scrollbar = c.pop().unwrap();
        let raised = c.pop().unwrap();
        let progress_idle = c.pop().unwrap();
        let progress_error = c.pop().unwrap();
        let progress_done = c.pop().unwrap();
        let progress_active = c.pop().unwrap();
        let panel = c.pop().unwrap();
        let overlay = c.pop().unwrap();
        let on_accent = c.pop().unwrap();
        let muted = c.pop().unwrap();
        let marked = c.pop().unwrap();
        let link = c.pop().unwrap();
        let info = c.pop().unwrap();
        let hover = c.pop().unwrap();
        let fg = c.pop().unwrap();
        let disabled = c.pop().unwrap();
        let danger = c.pop().unwrap();
        let cursor = c.pop().unwrap();
        let border = c.pop().unwrap();
        let bg = c.pop().unwrap();
        let backdrop = c.pop().unwrap();
        let accent = c.pop().unwrap();
        let r = Palette {
            bg,
            panel,
            raised,
            overlay,
            fg,
            muted,
            subtle,
            disabled,
            on_accent,
            border,
            hover,
            cursor,
            marked,
            accent,
            success,
            warning,
            danger,
            info,
            link,
            progress_active,
            progress_done,
            progress_idle,
            progress_error,
            scrollbar,
            scrollbar_active,
            backdrop,
        };
        assert(palette_colors(r) =~= orig);
        r
    }

    /// The built-in dark palette.
    pub fn dark() -> (r: Palette)
        ensures
            palette_colors(r) == dark_colors(),
    {
        let r = Palette {
            bg: "#161819".to_owned(),
            panel: "#1d2021".to_owned(),
            raised: "#3f3f3f".to_owned(),
            overlay: "#161819".to_owned(),
            fg: "#d1c6b1".to_owned(),
            muted: "#7d786e".to_owned(),
            subtle: "#5a564e".to_owned(),
            disabled: "#3f3f3f".to_owned(),
            on_accent: "#161819".to_owned(),
            border: "#1d2021".to_owned(),
            hover: "#1f2223".to_owned(),
            cursor: "#7daea3".to_owned(),
            marked: "#d8a657".to_owned(),
            accent: "#89b482".to_owned(),
            success: "#89b482".to_owned(),
            warning: "#d8a657".to_owned(),
            danger: "#ea6962".to_owned(),
            info: "#7daea3".to_owned(),
            link: "#a09ace".to_owned(),
            progress_active: "#7daea3".to_owned(),
            progress_done: "#89b482".to_owned(),
            progress_idle: "#7d786e".to_owned(),
            progress_error: "#ea6962".to_owned(),
            scrollbar: "#3f3f3f".to_owned(),
            scrollbar_active: "#5a564e".to_owned(),
            backdrop: "#16181999".to_owned(),
        };
        assert(palette_colors(r) =~= dark_colors());
        r
    }

    /// The built-in light palette: warm-gray paper, the dark palette's hues darkened for it.
    pub fn light() -> (r: Palette)
        ensures
            palette_colors(r) == light_colors(),
    {
        let r = Palette {
            bg: "#f3f1ea".to_owned(),
            panel: "#e9e6dd".to_owned(),
            raised: "#c9c5b8".to_owned(),
            overlay: "#f3f1ea".to_owned(),
            fg: "#4d473d".to_owned(),
            muted: "#7c756a".to_owned(),
            subtle: "#9d968a".to_owned(),
            disabled: "#bcb5a8".to_owned(),
            on_accent: "#f3f1ea".to_owned(),
            border: "#e9e6dd".to_owned(),
            hover: "#eae7df".to_owned(),
            cursor: "#217693".to_owned(),
            marked: "#a66700".to_owned(),
            accent: "#377d4b".to_owned(),
            success: "#377d4b".to_owned(),
            warning: "#a66700".to_owned(),
            danger: "#b23f40".to_owned(),
            info: "#217693".to_owned(),
            link: "#705ea2".to_owned(),
            progress_active: "#217693".to_owned(),
            progress_done: "#377d4b".to_owned(),
            progress_idle: "#7c756a".to_owned(),
            progress_error: "#b23f40".to_owned(),
            scrollbar: "#c9c5b8".to_owned(),
            scrollbar_active: "#a39e90".to_owned(),
            backdrop: "#f3f1ea99".to_owned(),
        };
        assert(palette_colors(r) =~= light_colors());
        r
    }
}

/// The built-in dark colors, in `role_keys` order.
pub open spec fn dark_colors() -> Seq<Seq<char>> {
    seq![
        "#89b482"@,
        "#16181999"@,
        "#161819"@,
        "#1d2021"@,
        "#7daea3"@,
        "#ea6962"@,
        "#3f3f3f"@,
        "#d1c6b1"@,
        "#1f2223"@,
        "#7daea3"@,
        "#a09ace"@,
        "#d8a657"@,
        "#7d786e"@,
        "#161819"@,
        "#161819"@,
        "#1d2021"@,
        "#7daea3"@,
        "#89b482"@,
        "#ea6962"@,
        "#7d786e"@,
        "#3f3f3f"@,
        "#3f3f3f"@,
        "#5a564e"@,
        "#5a564e"@,
        "#89b482"@,
        "#d8a657"@,
    ]
}

/// The built-in light colors, in `role_keys` order.
pub open spec fn light_colors() -> Seq<Seq<char>> {
    seq![
        "#377d4b"@,
        "#f3f1ea99"@,
        "#f3f1ea"@,
        "#e9e6dd"@,
        "#217693"@,
        "#b23f40"@,
        "#bcb5a8"@,
        "#4d473d"@,
        "#eae7df"@,
        "#217693"@,
        "#705ea2"@,
        "#a66700"@,
        "#7c756a"@,
        "#f3f1ea"@,
        "#f3f1ea"@,
        "#e9e6dd"@,
        "#217693"@,
        "#377d4b"@,
        "#b23f40"@,
        "#7c756a"@,
        "#c9c5b8"@,
        "#c9c5b8"@,
        "#a39e90"@,
        "#9d968a"@,
        "#377d4b"@,
        "#a66700"@,
    ]
}

/// What a theme file's table holds for a key: a string, or anything else.
#[derive(Debug, Clone)]
pub enum ThemeValue {
    Text(String),
    Other,
}

/// What is wrong with a theme.
#[derive(Debug, Clone, Copy, PartialEq, Eq, Structural)]
pub enum ThemeErrorKind {
    /// A table names a role that does not exist.
    UnknownKey,
    /// A table gives a role something other than a string.
    NotAString,
    /// A role's color is not `#rrggbb` or `#rrggbbaa`.
    BadColor,
}

/// A theme problem: what, in which variant, for which key (and the color,
/// for a bad one).
#[derive(Debug, Clone)]
pub struct ThemeError {
    pub kind: ThemeErrorKind,
    pub variant: String,
    pub key: String,
    pub color: String,
}

/// A theme problem as plain values: kind, key, color.
pub open spec fn err_view(e: ThemeError) -> (ThemeErrorKind, Seq<char>, Seq<char>) {
    (e.kind, e.key@, e.color@)
}

/// An ASCII hex digit.
pub open spec fn is_hex_char(c: char) -> bool {
    ('0' <= c && c <= '9') || ('a' <= c && c <= 'f') || ('A' <= c && c <= 'F')
}

/// A `#rrggbb` or `#rrggbbaa` color.
pub open spec fn spec_is_hex(s: Seq<char>) -> bool {
    &&& s.len() > 0
    &&& s[0] == '#'
    &&& (s.len() == 7 || s.len() == 9)
    &&& forall|i: int| 1 <= i < s.len() ==> is_hex_char(#[trigger] s[i])
}

pub fn is_hex(s: &str) -> (r: bool)
    ensures
        r == spec_is_hex(s@),
{
    let v = chars_of(s);
    if v.len() == 0 || v[0] != '#' || !(v.len() == 7 || v.len() == 9) {
        return false;
    }
    let mut i: usize = 1;
    while i < v.len()
        invariant
            1 <= i <= v@.len(),
            v@ == s@,
            forall|k: int| 1 <= k < i ==> is_hex_char(#[trigger] v@[k]),
        decreases v@.len() - i,
    {
        let c = v[i];
        if !(('0' <= c && c <= '9') || ('a' <= c && c <= 'f') || ('A' <= c && c <= 'F')) {
            return false;
        }
        i += 1;
    }
    true
}

/// Where `key` is among the role keys.
pub open spec fn key_index(key: Seq<char>) -> Option<int> {
    if exists|i: int| 0 <= i < role_keys().len() && role_keys()[i] == key {
        Some(choose|i: int| 0 <= i < role_keys().len() && role_keys()[i] == key)
    } else {
        None
    }
}

/// A table entry as plain values.
pub open spec fn entry_view(e: (String, ThemeValue)) -> (Seq<char>, Option<Seq<char>>) {
    (
        e.0@,
        match e.1 {
            ThemeValue::Text(s) => Some(s@),
            ThemeValue::Other => None,
        },
    )
}

/// The colors after applying a variant's table entries in order: each
/// entry overrides its role; the first unknown key or non-string value is
/// the error.
pub open spec fn spec_overlay(colors: Seq<Seq<char>>, table: Seq<(Seq<char>, Option<Seq<char>>)>) -> Result<
    Seq<Seq<char>>,
    (ThemeErrorKind, Seq<char>, Seq<char>),
>
    decreases table.len(),
{
    if table.len() == 0 {
        Ok(colors)
    } else {
        match spec_overlay(colors, table.drop_last()) {
            Err(e) => Err(e),
            Ok(c) => {
                let (k, v) = table.last();
                match key_index(k) {
                    None => Err((ThemeErrorKind::UnknownKey, k, Seq::empty())),
                    Some(i) => match v {
                        Some(s) => Ok(c.update(i, s)),
                        None => Err((ThemeErrorKind::NotAString, k, Seq::empty())),
                    },
                }
            },
        }
    }
}

/// The first role whose color is not a valid color, if any.
pub open spec fn first_bad_color(colors: Seq<Seq<char>>, from: int) -> Option<int>
    decreases colors.len() - from,
{
    if from < 0 || from >= colors.len() {
        None
    } else if !spec_is_hex(colors[from]) {
        Some(from)
    } else {
        first_bad_color(colors, from + 1)
    }
}

/// The index of `key` among the role keys.
fn find_key(keys: &Vec<&'static str>, key: &str) -> (r: Option<usize>)
    requires
        keys@.len() == role_keys().len(),
        forall|i: int| 0 <= i < keys@.len() ==> #[trigger] keys@[i]@ == role_keys()[i],
    ensures
        match r {
            Some(i) => key_index(key@) == Some(i as int),
            None => key_index(key@) is None,
        },
{
    let kv = chars_of(key);
    let mut i: usize = 0;
    while i < keys.len()
        invariant
            i <= keys@.len(),
            kv@ == key@,
            keys@.len() == role_keys().len(),
            forall|j: int| 0 <= j < keys@.len() ==> #[trigger] keys@[j]@ == role_keys()[j],
            forall|j: int| 0 <= j < i ==> role_keys()[j] != key@,
        decreases keys@.len() - i,
    {
        if crate::text::eq_str(kv.as_slice(), keys[i]) {
            proof {
                lemma_role_keys_distinct();
                let c = choose|c: int| 0 <= c < role_keys().len() && role_keys()[c] == key@;
                assert(role_keys()[i as int] == key@);
                if c != i {
                    assert(role_keys()[c] == role_keys()[i as int]);
                }
            }
            return Some(i);
        }
        i += 1;
    }
    None
}

proof fn lemma_role_keys_distinct()
    ensures
        forall|i: int, j: int| 0 <= i < j < role_keys().len() ==> role_keys()[i] != role_keys()[j],
{
    reveal_strlit("accent");
    reveal_strlit("backdrop");
    reveal_strlit("bg");
    reveal_strlit("border");
    reveal_strlit("cursor");
    reveal_strlit("danger");
    reveal_strlit("disabled");
    reveal_strlit("fg");
    reveal_strlit("hover");
    reveal_strlit("info");
    reveal_strlit("link");
    reveal_strlit("marked");
    reveal_strlit("muted");
    reveal_strlit("on-accent");
    reveal_strlit("overlay");
    reveal_strlit("panel");
    reveal_strlit("progress-active");
    reveal_strlit("progress-done");
    reveal_strlit("progress-error");
    reveal_strlit("progress-idle");
    reveal_strlit("raised");
    reveal_strlit("scrollbar");
    reveal_strlit("scrollbar-active");
    reveal_strlit("subtle");
    reveal_strlit("success");
    reveal_strlit("warning");
    assert forall|i: int, j: int| 0 <= i < j < role_keys().len() implies role_keys()[i] != role_keys()[j] by {
        if role_keys()[i] == role_keys()[j] {
            assert(role_keys()[i].len() == role_keys()[j].len());
            assert(role_keys()[i][0] == role_keys()[j][0]);
            assert(role_keys()[i].len() >= 2 ==> role_keys()[i][1] == role_keys()[j][1]);
            assert(role_keys()[i].len() >= 3 ==> role_keys()[i][2] == role_keys()[j][2]);
            assert(role_keys()[i].len() >= 10 ==> role_keys()[i][9] == role_keys()[j][9]);
        }
    }
}

impl Palette {
    /// Apply a variant's table from the theme file over this palette. An
    /// omitted key keeps its color; an unknown key or a value that is not a
    /// string is an error, so typos surface instead of doing nothing.
    pub fn overlay(self, variant: &str, table: Vec<(String, ThemeValue)>) -> (r: Result<Palette, ThemeError>)
        ensures
            match r {
                Ok(p) => spec_overlay(palette_colors(self), table_view(table@))
                    == Ok::<Seq<Seq<char>>, (ThemeErrorKind, Seq<char>, Seq<char>)>(palette_colors(p)),
                Err(e) => spec_overlay(palette_colors(self), table_view(table@))
                    == Err::<Seq<Seq<char>>, (ThemeErrorKind, Seq<char>, Seq<char>)>(err_view(e)) && e.variant@ == variant@,
            },
    {
        let keys = role_key_list();
        let ghost tv = table_view(table@);
        let mut colors = self.colors();
        let mut rest = table;
        let n = rest.len();
        let mut k: usize = 0;
        while k < n
            invariant
                k <= n,
                tv == table_view(table@),
                n == tv.len(),
                rest@.len() == n - k,
                forall|j: int| 0 <= j < rest@.len() ==> #[trigger] entry_view(rest@[j]) == tv[k + j],
                keys@.len() == role_keys().len(),
                forall|i: int| 0 <= i < keys@.len() ==> #[trigger] keys@[i]@ == role_keys()[i],
                colors@.len() == role_keys().len(),
                spec_overlay(palette_colors(self), tv.subrange(0, k as int)) == Ok::<Seq<Seq<char>>, (ThemeErrorKind, Seq<char>, Seq<char>)>(
                    string_views(colors@),
                ),
            decreases n - k,
        {
            let (key, value) = rest.remove(0);
            proof {
                assert(entry_view((key, value)) == tv[k as int]);
                assert(tv.subrange(0, k + 1).drop_last() =~= tv.subrange(0, k as int));
                assert(tv.subrange(0, k + 1).last() == tv[k as int]);
                assert forall|j: int| 0 <= j < rest@.len() implies #[trigger] entry_view(rest@[j]) == tv[(k + 1) + j] by {}
            }
            match find_key(&keys, key.as_str()) {
                None => {
                    proof {
                        assert(spec_overlay(palette_colors(self), tv.subrange(0, k + 1)) == Err::<
                            Seq<Seq<char>>,
                            (ThemeErrorKind, Seq<char>, Seq<char>),
                        >((ThemeErrorKind::UnknownKey, key@, Seq::empty())));
                        lemma_overlay_err_sticks(palette_colors(self), tv, k as int + 1);
                    }
                    let v = crate::text::string_of(chars_of(variant).as_slice());
                    let e = ThemeError { kind: ThemeErrorKind::UnknownKey, variant: v, key, color: String::new() };
                    assert(err_view(e) == (ThemeErrorKind::UnknownKey, e.key@, Seq::<char>::empty()));
                    return Err(e);
                },
                Some(i) => match value {
                    ThemeValue::Text(s) => {
                        let ghost before = colors@;
                        colors.set(i, s);
                        proof {
                            assert(string_views(colors@) =~= string_views(before).update(i as int, s@));
                        }
                    },
                    ThemeValue::Other => {
                        proof {
                            assert(spec_overlay(palette_colors(self), tv.subrange(0, k + 1)) == Err::<
                                Seq<Seq<char>>,
                                (ThemeErrorKind, Seq<char>, Seq<char>),
                            >((ThemeErrorKind::NotAString, key@, Seq::empty())));
                            lemma_overlay_err_sticks(palette_colors(self), tv, k as int + 1);
                        }
                        let v = crate::text::string_of(chars_of(variant).as_slice());
                        let e = ThemeError { kind: ThemeErrorKind::NotAString, variant: v, key, color: String::new() };
                        assert(err_view(e) == (ThemeErrorKind::NotAString, e.key@, Seq::<char>::empty()));
                        return Err(e);
                    },
                },
            }
            k += 1;
        }
        assert(tv.subrange(0, n as int) =~= tv);
        Ok(Palette::from_colors(colors))
    }

    /// Every role holds a valid color; the first that does not, in key
    /// order, is the error.
    pub fn validate(&self, variant: &str) -> (r: Result<(), ThemeError>)
        ensures
            match first_bad_color(palette_colors(*self), 0) {
                None => r is Ok,
                Some(i) => r matches Err(e) && e.kind == ThemeErrorKind::BadColor && e.key@ == role_keys()[i]
                    && e.color@ == palette_colors(*self)[i] && e.variant@ == variant@,
            },
    {
        let keys = role_key_list();
        let colors = self.colors();
        let mut i: usize = 0;
        while i < colors.len()
            invariant
                i <= colors@.len(),
                colors@.len() == role_keys().len(),
                keys@.len() == role_keys().len(),
                forall|j: int| 0 <= j < keys@.len() ==> #[trigger] keys@[j]@ == role_keys()[j],
                string_views(colors@) == palette_colors(*self),
                first_bad_color(palette_colors(*self), 0) == first_bad_color(palette_colors(*self), i as int),
            decreases colors@.len() - i,
        {
            proof {
                assert(string_views(colors@)[i as int] == colors@[i as int]@);
            }
            if !is_hex(colors[i].as_str()) {
                let v = crate::text::string_of(chars_of(variant).as_slice());
                let key = crate::text::string_of(chars_of(keys[i]).as_slice());
                return Err(ThemeError { kind: ThemeErrorKind::BadColor, variant: v, key, color: colors[i].clone() });
            }
            i += 1;
        }
        Ok(())
    }
}

proof fn lemma_overlay_err_sticks(colors: Seq<Seq<char>>, t: Seq<(Seq<char>, Option<Seq<char>>)>, k: int)
    requires
        0 <= k <= t.len(),
        spec_overlay(colors, t.subrange(0, k)) is Err,
    ensures
        spec_overlay(colors, t) == spec_overlay(colors, t.subrange(0, k)),
    decreases t.len() - k,
{
    if k < t.len() {
        assert(t.subrange(0, k + 1).drop_last() =~= t.subrange(0, k));
        lemma_overlay_err_sticks(colors, t, k + 1);
    } else {
        assert(t.subrange(0, k) =~= t);
    }
}

/// The table entries of a variant as plain values.
pub open spec fn table_view(t: Seq<(String, ThemeValue)>) -> Seq<(Seq<char>, Option<Seq<char>>)> {
    t.map_values(|e: (String, ThemeValue)| entry_view(e))
}

impl Theme {
    /// The built-in theme.
    pub fn defaults() -> (r: Theme)
        ensures
            palette_colors(r.dark) == dark_colors(),
            palette_colors(r.light) == light_colors(),
    {
        Theme { dark: Palette::dark(), light: Palette::light() }
    }

    /// A theme from the file's `[dark]` and `[light]` tables (each may be
    /// empty), each over its built-in palette.
    pub fn from_tables(dark: Vec<(String, ThemeValue)>, light: Vec<(String, ThemeValue)>) -> (r: Result<Theme, ThemeError>)
        ensures
            match spec_overlay(dark_colors(), table_view(dark@)) {
                Err(e) => r matches Err(x) && err_view(x) == e && x.variant@ == "dark"@,
                Ok(dc) => match spec_overlay(light_colors(), table_view(light@)) {
                    Err(e) => r matches Err(x) && err_view(x) == e && x.variant@ == "light"@,
                    Ok(lc) => r matches Ok(t) && palette_colors(t.dark) == dc && palette_colors(t.light) == lc,
                },
            },
    {
        let d = Palette::dark().overlay("dark", dark)?;
        let l = Palette::light().overlay("light", light)?;
        Ok(Theme { dark: d, light: l })
    }

    /// Both palettes are valid, dark checked first.
    pub fn validate(&self) -> (r: Result<(), ThemeError>)
        ensures
            r is Ok <==> first_bad_color(palette_colors(self.dark), 0) is None && first_bad_color(
                palette_colors(self.light),
                0,
            ) is None,
    {
        self.dark.validate("dark")?;
        self.light.validate("light")
    }
}

} // verus!
