//! Theme overrides: validation of the configured colours and fonts, and the script that
//! applies them to the page.

use vstd::prelude::*;
use crate::text::{chars_of, push_char};

verus! {

/// CSS custom-property overrides applied on top of the bundled theme defaults. Every field is
/// optional; `None` keeps the compiled-in default.
#[derive(Debug, PartialEq)]
pub struct ThemeOverrides {
    pub primary: Option<String>,
    pub accent: Option<String>,
    pub text: Option<String>,
    pub text_secondary: Option<String>,
    pub text_muted: Option<String>,
    pub text_dim: Option<String>,
    pub text_faint: Option<String>,
    pub text_mute: Option<String>,
    pub text_strong: Option<String>,
    pub text_on_dark: Option<String>,
    pub border: Option<String>,
    pub border_light: Option<String>,
    pub surface_light: Option<String>,
    pub surface_hover: Option<String>,
    pub surface_dark: Option<String>,
    pub font_body: Option<String>,
    pub font_heading: Option<String>,
    pub font_heading_weight: Option<String>,
    pub font_mono: Option<String>,
}

impl Default for ThemeOverrides {
    fn default() -> (r: Self)
        ensures
            r.primary is None,
            r.accent is None,
            r.text is None,
            r.text_secondary is None,
            r.text_muted is None,
            r.text_dim is None,
            r.text_faint is None,
            r.text_mute is None,
            r.text_strong is None,
            r.text_on_dark is None,
            r.border is None,
            r.border_light is None,
            r.surface_light is None,
            r.surface_hover is None,
            r.surface_dark is None,
            r.font_body is None,
            r.font_heading is None,
            r.font_heading_weight is None,
            r.font_mono is None,
    {
        ThemeOverrides {
            primary: None,
            accent: None,
            text: None,
            text_secondary: None,
            text_muted: None,
            text_dim: None,
            text_faint: None,
            text_mute: None,
            text_strong: None,
            text_on_dark: None,
            border: None,
            border_light: None,
            surface_light: None,
            surface_hover: None,
            surface_dark: None,
            font_body: None,
            font_heading: None,
            font_heading_weight: None,
            font_mono: None,
        }
    }
}

/// The colour fields of a theme, in validation order.
pub open spec fn color_values(t: ThemeOverrides) -> Seq<Option<String>> {
    seq![t.primary, t.accent, t.text, t.text_secondary, t.text_muted, t.text_dim, t.text_faint, t.text_mute, t.text_strong, t.text_on_dark, t.border, t.border_light, t.surface_light, t.surface_hover, t.surface_dark]
}

/// The font fields of a theme, in validation order.
pub open spec fn font_values(t: ThemeOverrides) -> Seq<Option<String>> {
    seq![t.font_body, t.font_heading, t.font_heading_weight, t.font_mono]
}

/// The names under which the colour fields are reported.
pub open spec fn color_names() -> Seq<Seq<char>> {
    seq!["theme.primary"@, "theme.accent"@, "theme.text"@, "theme.text_secondary"@, "theme.text_muted"@, "theme.text_dim"@, "theme.text_faint"@, "theme.text_mute"@, "theme.text_strong"@, "theme.text_on_dark"@, "theme.border"@, "theme.border_light"@, "theme.surface_light"@, "theme.surface_hover"@, "theme.surface_dark"@]
}

/// The names under which the font fields are reported.
pub open spec fn font_names() -> Seq<Seq<char>> {
    seq!["theme.font_body"@, "theme.font_heading"@, "theme.font_heading_weight"@, "theme.font_mono"@]
}

/// An ASCII hexadecimal digit.
pub open spec fn is_hex_digit(c: char) -> bool {
    ('0' <= c && c <= '9') || ('a' <= c && c <= 'f') || ('A' <= c && c <= 'F')
}

/// A CSS hex colour: `#` followed by 3, 4, 6 or 8 hexadecimal digits.
pub open spec fn hex_color_ok(s: Seq<char>) -> bool {
    &&& s.len() > 0
    &&& s[0] == '#'
    &&& (s.len() == 4 || s.len() == 5 || s.len() == 7 || s.len() == 9)
    &&& forall|i: int| 1 <= i < s.len() ==> is_hex_digit(#[trigger] s[i])
}

/// A character allowed in a theme font value: printable ASCII other than `"`, `\`, `<`, `>`
/// and `;`.
pub open spec fn font_char_ok(c: char) -> bool {
    &&& (c as u32) < 128
    &&& !((c as u32) < 32 || (c as u32) == 127)
    &&& c != '"' && c != '\\' && c != '<' && c != '>' && c != ';'
}

/// A theme font value: not empty, and every character allowed.
pub open spec fn font_value_ok(s: Seq<char>) -> bool {
    s.len() > 0 && forall|i: int| 0 <= i < s.len() ==> font_char_ok(#[trigger] s[i])
}

/// Matches a CSS hex colour: `#` followed by 3, 4, 6 or 8 hex digits.
pub fn is_valid_hex_color(s: &str) -> (r: bool)
    ensures
        r == hex_color_ok(s@),
{
    let cs = chars_of(s);
    let n = cs.len();
    if n == 0 || cs[0] != '#' {
        return false;
    }
    if !(n == 4 || n == 5 || n == 7 || n == 9) {
        return false;
    }
    let mut i: usize = 1;
    while i < n
        invariant
            cs@ == s@,
            n == cs.len(),
            1 <= i <= n,
            forall|j: int| 1 <= j < i ==> is_hex_digit(#[trigger] cs@[j]),
        decreases n - i,
    {
        let c = cs[i];
        if !((c >= '0' && c <= '9') || (c >= 'a' && c <= 'f') || (c >= 'A' && c <= 'F')) {
            assert(!is_hex_digit(s@[i as int]));
            return false;
        }
        i += 1;
    }
    true
}

/// Rejects an empty value and any character that could break out of the quoted script string a
/// font value is put into: `"`, `\`, `<`, `>`, `;`, control characters and non-ASCII ones.
pub fn is_valid_font_value(s: &str) -> (r: bool)
    ensures
        r == font_value_ok(s@),
{
    let cs = chars_of(s);
    if cs.len() == 0 {
        return false;
    }
    let mut i: usize = 0;
    while i < cs.len()
        invariant
            cs@ == s@,
            i <= cs.len(),
            forall|j: int| 0 <= j < i ==> font_char_ok(#[trigger] cs@[j]),
        decreases cs.len() - i,
    {
        let c = cs[i];
        let code = c as u32;
        if code >= 128 || code < 32 || code == 127 || c == '"' || c == '\\' || c == '<' || c == '>' || c == ';' {
            assert(!font_char_ok(s@[i as int]));
            return false;
        }
        i += 1;
    }
    true
}

/// The message for a colour field whose value is not a hex colour.
pub open spec fn color_error(name: Seq<char>, v: Seq<char>) -> Seq<char> {
    name + " = \""@ + v + "\" is not a valid CSS hex color (expected e.g. \"#002868\")"@
}

/// The message for a font field whose value holds a character not allowed.
pub open spec fn font_error(name: Seq<char>, v: Seq<char>) -> Seq<char> {
    name + " = \""@ + v + "\" contains a character not allowed in a theme font value"@
}

/// The first colour field from position `i` on whose value is set and is not a hex colour.
pub open spec fn check_colors(names: Seq<Seq<char>>, values: Seq<Option<String>>, i: int) -> Result<(), Seq<char>>
    decreases values.len() - i,
{
    if i < 0 || i >= values.len() {
        Ok(())
    } else if values[i] is Some && !hex_color_ok((values[i]->0)@) {
        Err(color_error(names[i], (values[i]->0)@))
    } else {
        check_colors(names, values, i + 1)
    }
}

/// The first font field from position `i` on whose value is set and is not allowed.
pub open spec fn check_fonts(names: Seq<Seq<char>>, values: Seq<Option<String>>, i: int) -> Result<(), Seq<char>>
    decreases values.len() - i,
{
    if i < 0 || i >= values.len() {
        Ok(())
    } else if values[i] is Some && !font_value_ok((values[i]->0)@) {
        Err(font_error(names[i], (values[i]->0)@))
    } else {
        check_fonts(names, values, i + 1)
    }
}

/// What validating a theme gives: the first bad colour field, else the first bad font field,
/// else success.
pub open spec fn theme_validation(t: ThemeOverrides) -> Result<(), Seq<char>> {
    match check_colors(color_names(), color_values(t), 0) {
        Err(e) => Err(e),
        Ok(_) => check_fonts(font_names(), font_values(t), 0),
    }
}

fn append_str(s: &mut String, t: &str)
    ensures
        final(s)@ == old(s)@ + t@,
{
    s.append(t);
}

impl ThemeOverrides {
    /// The colour fields with the names they are reported under.
    pub fn color_fields(&self) -> (r: Vec<(&'static str, &Option<String>)>)
        ensures
            r@.len() == color_values(*self).len(),
            forall|i: int| 0 <= i < r@.len() ==> (#[trigger] r@[i]).0@ == color_names()[i] && *r@[i].1 == color_values(*self)[i],
    {
        proof {
            reveal_strlit("theme.primary");
            reveal_strlit("theme.accent");
            reveal_strlit("theme.text");
            reveal_strlit("theme.text_secondary");
            reveal_strlit("theme.text_muted");
            reveal_strlit("theme.text_dim");
            reveal_strlit("theme.text_faint");
            reveal_strlit("theme.text_mute");
            reveal_strlit("theme.text_strong");
            reveal_strlit("theme.text_on_dark");
            reveal_strlit("theme.border");
            reveal_strlit("theme.border_light");
            reveal_strlit("theme.surface_light");
            reveal_strlit("theme.surface_hover");
            reveal_strlit("theme.surface_dark");
        }
        let r = vec![
            ("theme.primary", &self.primary),
            ("theme.accent", &self.accent),
            ("theme.text", &self.text),
            ("theme.text_secondary", &self.text_secondary),
            ("theme.text_muted", &self.text_muted),
            ("theme.text_dim", &self.text_dim),
            ("theme.text_faint", &self.text_faint),
            ("theme.text_mute", &self.text_mute),
            ("theme.text_strong", &self.text_strong),
            ("theme.text_on_dark", &self.text_on_dark),
            ("theme.border", &self.border),
            ("theme.border_light", &self.border_light),
            ("theme.surface_light", &self.surface_light),
            ("theme.surface_hover", &self.surface_hover),
            ("theme.surface_dark", &self.surface_dark),
        ];
        r
    }

    /// The font fields with the names they are reported under.
    pub fn font_fields(&self) -> (r: Vec<(&'static str, &Option<String>)>)
        ensures
            r@.len() == font_values(*self).len(),
            forall|i: int| 0 <= i < r@.len() ==> (#[trigger] r@[i]).0@ == font_names()[i] && *r@[i].1 == font_values(*self)[i],
    {
        proof {
            reveal_strlit("theme.font_body");
            reveal_strlit("theme.font_heading");
            reveal_strlit("theme.font_heading_weight");
            reveal_strlit("theme.font_mono");
        }
        let r = vec![
            ("theme.font_body", &self.font_body),
            ("theme.font_heading", &self.font_heading),
            ("theme.font_heading_weight", &self.font_heading_weight),
            ("theme.font_mono", &self.font_mono),
        ];
        r
    }

    /// Checks every set field, colours first and then fonts, returning a message that names the
    /// first offending field.
    pub fn validate(&self) -> (r: Result<(), String>)
        ensures
            match theme_validation(*self) {
                Ok(_) => r is Ok,
                Err(e) => r matches Err(m) && m@ == e,
            },
    {
        let colors = self.color_fields();
        let mut i: usize = 0;
        while i < colors.len()
            invariant
                colors@.len() == color_values(*self).len(),
                forall|j: int| 0 <= j < colors@.len() ==> (#[trigger] colors@[j]).0@ == color_names()[j] && *colors@[j].1 == color_values(*self)[j],
                i <= colors.len(),
                check_colors(color_names(), color_values(*self), 0) == check_colors(color_names(), color_values(*self), i as int),
            decreases colors.len() - i,
        {
            let (name, value) = colors[i];
            if let Some(v) = value {
                if !is_valid_hex_color(v.as_str()) {
                    let mut msg = String::new();
                    append_str(&mut msg, name);
                    append_str(&mut msg, " = \"");
                    append_str(&mut msg, v.as_str());
                    append_str(&mut msg, "\" is not a valid CSS hex color (expected e.g. \"#002868\")");
                    return Err(msg);
                }
            }
            i += 1;
        }
        let fonts = self.font_fields();
        let mut i: usize = 0;
        while i < fonts.len()
            invariant
                check_colors(color_names(), color_values(*self), 0) is Ok,
                fonts@.len() == font_values(*self).len(),
                forall|j: int| 0 <= j < fonts@.len() ==> (#[trigger] fonts@[j]).0@ == font_names()[j] && *fonts@[j].1 == font_values(*self)[j],
                i <= fonts.len(),
                check_fonts(font_names(), font_values(*self), 0) == check_fonts(font_names(), font_values(*self), i as int),
            decreases fonts.len() - i,
        {
            let (name, value) = fonts[i];
            if let Some(v) = value {
                if !is_valid_font_value(v.as_str()) {
                    let mut msg = String::new();
                    append_str(&mut msg, name);
                    append_str(&mut msg, " = \"");
                    append_str(&mut msg, v.as_str());
                    append_str(&mut msg, "\" contains a character not allowed in a theme font value");
                    return Err(msg);
                }
            }
            i += 1;
        }
        Ok(())
    }
}

// ---------------------------------------------------------------------------------------------
// Applying the overrides to the page.
// ---------------------------------------------------------------------------------------------

/// The CSS custom properties the overrides set, in application order.
pub open spec fn css_property_names() -> Seq<Seq<char>> {
    seq!["--color-primary"@, "--color-accent"@, "--color-text"@, "--color-text-secondary"@, "--color-text-muted"@, "--color-text-dim"@, "--color-text-faint"@, "--color-text-mute"@, "--color-text-strong"@, "--color-text-on-dark"@, "--color-border"@, "--color-border-light"@, "--color-surface-light"@, "--color-surface-hover"@, "--color-surface-dark"@, "--font-body"@, "--font-heading"@, "--font-heading-weight"@, "--font-mono"@]
}

/// Every field of a theme, in application order.
pub open spec fn theme_values(t: ThemeOverrides) -> Seq<Option<String>> {
    seq![t.primary, t.accent, t.text, t.text_secondary, t.text_muted, t.text_dim, t.text_faint, t.text_mute, t.text_strong, t.text_on_dark, t.border, t.border_light, t.surface_light, t.surface_hover, t.surface_dark, t.font_body, t.font_heading, t.font_heading_weight, t.font_mono]
}

/// The text of an optional string.
pub open spec fn opt_view(o: Option<&str>) -> Option<Seq<char>> {
    match o {
        Some(s) => Some(s@),
        None => None,
    }
}

/// The text of an optional owned string.
pub open spec fn opt_string_view(o: Option<String>) -> Option<Seq<char>> {
    match o {
        Some(s) => Some(s@),
        None => None,
    }
}

fn opt_str(o: &Option<String>) -> (r: Option<&str>)
    ensures
        opt_view(r) == opt_string_view(*o),
{
    match o {
        Some(s) => Some(s.as_str()),
        None => None,
    }
}

/// Every theme override with the CSS custom property it sets, in application order.
pub fn theme_override_pairs(theme: &ThemeOverrides) -> (r: Vec<(&'static str, Option<&str>)>)
    ensures
        r@.len() == css_property_names().len(),
        forall|i: int| 0 <= i < r@.len() ==> (#[trigger] r@[i]).0@ == css_property_names()[i] && opt_view(r@[i].1) == opt_string_view(theme_values(*theme)[i]),
{
    proof {
        reveal_strlit("--color-primary");
        reveal_strlit("--color-accent");
        reveal_strlit("--color-text");
        reveal_strlit("--color-text-secondary");
        reveal_strlit("--color-text-muted");
        reveal_strlit("--color-text-dim");
        reveal_strlit("--color-text-faint");
        reveal_strlit("--color-text-mute");
        reveal_strlit("--color-text-strong");
        reveal_strlit("--color-text-on-dark");
        reveal_strlit("--color-border");
        reveal_strlit("--color-border-light");
        reveal_strlit("--color-surface-light");
        reveal_strlit("--color-surface-hover");
        reveal_strlit("--color-surface-dark");
        reveal_strlit("--font-body");
        reveal_strlit("--font-heading");
        reveal_strlit("--font-heading-weight");
        reveal_strlit("--font-mono");
    }
    let r = vec![
        ("--color-primary", opt_str(&theme.primary)),
        ("--color-accent", opt_str(&theme.accent)),
        ("--color-text", opt_str(&theme.text)),
        ("--color-text-secondary", opt_str(&theme.text_secondary)),
        ("--color-text-muted", opt_str(&theme.text_muted)),
        ("--color-text-dim", opt_str(&theme.text_dim)),
        ("--color-text-faint", opt_str(&theme.text_faint)),
        ("--color-text-mute", opt_str(&theme.text_mute)),
        ("--color-text-strong", opt_str(&theme.text_strong)),
        ("--color-text-on-dark", opt_str(&theme.text_on_dark)),
        ("--color-border", opt_str(&theme.border)),
        ("--color-border-light", opt_str(&theme.border_light)),
        ("--color-surface-light", opt_str(&theme.surface_light)),
        ("--color-surface-hover", opt_str(&theme.surface_hover)),
        ("--color-surface-dark", opt_str(&theme.surface_dark)),
        ("--font-body", opt_str(&theme.font_body)),
        ("--font-heading", opt_str(&theme.font_heading)),
        ("--font-heading-weight", opt_str(&theme.font_heading_weight)),
        ("--font-mono", opt_str(&theme.font_mono)),
    ];
    r
}

/// A character escaped for a double-quoted script string literal.
pub open spec fn escape_js_char(c: char) -> Seq<char> {
    if c == '\\' {
        seq!['\\', '\\']
    } else if c == '\n' {
        seq!['\\', 'n']
    } else if c == '\r' {
        seq!['\\', 'r']
    } else if c == '"' {
        seq!['\\', '"']
    } else {
        seq![c]
    }
}

/// A string escaped for a double-quoted script string literal: backslashes, newlines, carriage
/// returns and double quotes get a backslash.
pub open spec fn escape_js(s: Seq<char>) -> Seq<char>
    decreases s.len(),
{
    if s.len() == 0 {
        seq![]
    } else {
        escape_js(s.drop_last()) + escape_js_char(s.last())
    }
}

/// Escapes `s` for a double-quoted script string literal.
pub fn escape_js_string(s: &str) -> (r: String)
    ensures
        r@ == escape_js(s@),
{
    let cs = chars_of(s);
    let mut r = String::new();
    let mut i: usize = 0;
    while i < cs.len()
        invariant
            cs@ == s@,
            i <= cs.len(),
            r@ == escape_js(cs@.take(i as int)),
        decreases cs.len() - i,
    {
        let c = cs[i];
        proof {
            assert(cs@.take(i + 1).drop_last() =~= cs@.take(i as int));
        }
        if c == '\\' {
            push_char(&mut r, '\\');
            push_char(&mut r, '\\');
        } else if c == '\n' {
            push_char(&mut r, '\\');
            push_char(&mut r, 'n');
        } else if c == '\r' {
            push_char(&mut r, '\\');
            push_char(&mut r, 'r');
        } else if c == '"' {
            push_char(&mut r, '\\');
            push_char(&mut r, '"');
        } else {
            push_char(&mut r, c);
        }
        proof {
            assert(r@ =~= escape_js(cs@.take(i as int)) + escape_js_char(c));
        }
        i += 1;
    }
    assert(cs@.take(cs@.len() as int) =~= cs@);
    r
}

/// The statement that applies one override: set the property to the escaped value, or remove it
/// when the value is absent.
pub open spec fn override_statement(name: Seq<char>, value: Option<Seq<char>>) -> Seq<char> {
    match value {
        Some(v) => "document.documentElement.style.setProperty('"@ + name + "', \""@ + escape_js(v) + "\");"@,
        None => "document.documentElement.style.removeProperty('"@ + name + "');"@,
    }
}

/// The script that applies every override of `pairs`, in order.
pub open spec fn theme_script(pairs: Seq<(&str, Option<&str>)>) -> Seq<char>
    decreases pairs.len(),
{
    if pairs.len() == 0 {
        seq![]
    } else {
        theme_script(pairs.drop_last()) + override_statement(pairs.last().0@, opt_view(pairs.last().1))
    }
}

/// Law of the theme script: the script of two lists of overrides one after the other is the
/// script of the first followed by the script of the second; a single override gives its own
/// statement.
pub proof fn law_theme_script_concat(a: Seq<(&str, Option<&str>)>, b: Seq<(&str, Option<&str>)>)
    ensures
        theme_script(a + b) == theme_script(a) + theme_script(b),
        b.len() == 1 ==> theme_script(b) == override_statement(b[0].0@, opt_view(b[0].1)),
    decreases b.len(),
{
    if b.len() == 0 {
        assert(a + b =~= a);
        assert(theme_script(a) + theme_script(b) =~= theme_script(a));
    } else {
        law_theme_script_concat(a, b.drop_last());
        assert((a + b).drop_last() =~= a + b.drop_last());
        assert((a + b).last() == b.last());
        assert(theme_script(a + b) =~= theme_script(a) + theme_script(b));
        if b.len() == 1 {
            assert(b.drop_last().len() == 0);
            assert(theme_script(b) =~= override_statement(b[0].0@, opt_view(b[0].1)));
        }
    }
}

/// Builds the script that sets (or, for absent values, removes) every theme override on the
/// document element, in one piece.
pub fn build_theme_eval_js(pairs: &[(&str, Option<&str>)]) -> (r: String)
    ensures
        r@ == theme_script(pairs@),
{
    let mut js = String::new();
    let mut i: usize = 0;
    while i < pairs.len()
        invariant
            i <= pairs@.len(),
            js@ == theme_script(pairs@.take(i as int)),
        decreases pairs@.len() - i,
    {
        let (var_name, value) = pairs[i];
        proof {
            assert(pairs@.take(i + 1).drop_last() =~= pairs@.take(i as int));
        }
        match value {
            Some(v) => {
                append_str(&mut js, "document.documentElement.style.setProperty('");
                append_str(&mut js, var_name);
                append_str(&mut js, "', \"");
                let escaped = escape_js_string(v);
                append_str(&mut js, escaped.as_str());
                append_str(&mut js, "\");");
            },
            None => {
                append_str(&mut js, "document.documentElement.style.removeProperty('");
                append_str(&mut js, var_name);
                append_str(&mut js, "');");
            },
        }
        proof {
            assert(js@ =~= theme_script(pairs@.take(i as int)) + override_statement(var_name@, opt_view(value)));
        }
        i += 1;
    }
    assert(pairs@.take(pairs@.len() as int) =~= pairs@);
    js
}


proof fn lemma_check_colors(names: Seq<Seq<char>>, values: Seq<Option<String>>, i: int)
    requires
        0 <= i <= values.len(),
    ensures
        check_colors(names, values, i) is Ok <==> forall|k: int| i <= k < values.len() && values[k] is Some ==> hex_color_ok((values[k]->0)@),
    decreases values.len() - i,
{
    if i < values.len() {
        lemma_check_colors(names, values, i + 1);
    }
}

proof fn lemma_check_fonts(names: Seq<Seq<char>>, values: Seq<Option<String>>, i: int)
    requires
        0 <= i <= values.len(),
    ensures
        check_fonts(names, values, i) is Ok <==> forall|k: int| i <= k < values.len() && values[k] is Some ==> font_value_ok((values[k]->0)@),
    decreases values.len() - i,
{
    if i < values.len() {
        lemma_check_fonts(names, values, i + 1);
    }
}

/// Law of theme validation: a theme passes exactly when every colour it sets is a hex colour
/// and every font it sets is an allowed font value.
pub proof fn law_validation_accepts_exactly_valid_themes(t: ThemeOverrides)
    ensures
        theme_validation(t) is Ok <==> (
            (forall|k: int| 0 <= k < color_values(t).len() && color_values(t)[k] is Some ==> hex_color_ok((color_values(t)[k]->0)@))
            && (forall|k: int| 0 <= k < font_values(t).len() && font_values(t)[k] is Some ==> font_value_ok((font_values(t)[k]->0)@))
        ),
{
    lemma_check_colors(color_names(), color_values(t), 0);
    lemma_check_fonts(font_names(), font_values(t), 0);
}

} // verus!
