//! Renderer-neutral colors, semantic diff palettes, and capture-based syntax
//! themes.
use vstd::prelude::*;
use vstd::utf8::encode_utf8;
use crate::fingerprint::{blake3_digest, encode_fields, Fingerprint};
use crate::model::DiffTone;
use crate::text::{chars_of, string_from_chars};

verus! {

/// An sRGB color with an explicit alpha channel.
#[derive(Debug, Clone, Copy, PartialEq, Eq, Hash, Structural)]
pub struct Rgba {
    pub r: u8,
    pub g: u8,
    pub b: u8,
    pub a: u8,
}

/// One channel of a color composited over an opaque background: the
/// alpha-weighted average, rounded to nearest.
pub open spec fn blend(foreground: u8, background: u8, alpha: u8) -> int {
    (foreground * alpha + background * (255 - alpha) + 127) / 255
}

fn blend_channel(foreground: u8, background: u8, alpha: u8) -> (res: u8)
    ensures
        res == blend(foreground, background, alpha),
{
    let inverse: u8 = 255u8 - alpha;
    proof {
        assert(foreground as int * alpha as int <= 65025) by (nonlinear_arith)
            requires
                foreground <= 255,
                alpha <= 255,
        ;
        assert(background as int * inverse as int <= 255 * inverse as int) by (nonlinear_arith)
            requires
                background <= 255,
        ;
        assert(foreground as int * alpha as int <= 255 * alpha as int) by (nonlinear_arith)
            requires
                foreground <= 255,
        ;
    }
    let f = foreground as u32 * alpha as u32;
    let b = background as u32 * inverse as u32;
    ((f + b + 127) / 255) as u8
}

impl Rgba {
    pub fn new(r: u8, g: u8, b: u8, a: u8) -> (res: Rgba)
        ensures
            res == (Rgba { r, g, b, a }),
    {
        Rgba { r, g, b, a }
    }

    /// Composites this color over an opaque background: each channel is
    /// blended by this color's alpha, and the result is opaque.
    pub fn over(self, background: Rgba) -> (res: Rgba)
        ensures
            res.r == blend(self.r, background.r, self.a),
            res.g == blend(self.g, background.g, self.a),
            res.b == blend(self.b, background.b, self.a),
            res.a == 255,
    {
        Rgba::new(
            blend_channel(self.r, background.r, self.a),
            blend_channel(self.g, background.g, self.a),
            blend_channel(self.b, background.b, self.a),
            255,
        )
    }

    /// The channels in order red, green, blue, alpha.
    pub fn to_bytes(self) -> (res: [u8; 4])
        ensures
            res@ == seq![self.r, self.g, self.b, self.a],
    {
        [self.r, self.g, self.b, self.a]
    }
}

impl Default for Rgba {
    fn default() -> (res: Rgba)
        ensures
            res == (Rgba { r: 212, g: 221, b: 214, a: 255 }),
    {
        Rgba::new(212, 221, 214, 255)
    }
}

/// Text modifiers returned by the syntax engine.
#[derive(Debug, Clone, Copy, PartialEq, Eq, Hash, Structural)]
pub struct FontStyle {
    pub bold: bool,
    pub italic: bool,
    pub underline: bool,
}

impl Default for FontStyle {
    fn default() -> (res: FontStyle)
        ensures
            res == (FontStyle { bold: false, italic: false, underline: false }),
    {
        FontStyle::none()
    }
}

impl FontStyle {
    /// No modifier.
    pub fn none() -> (res: FontStyle)
        ensures
            res == (FontStyle { bold: false, italic: false, underline: false }),
    {
        FontStyle { bold: false, italic: false, underline: false }
    }

    /// Whether no modifier is set.
    pub fn is_plain(self) -> (res: bool)
        ensures
            res == (!self.bold && !self.italic && !self.underline),
    {
        !self.bold && !self.italic && !self.underline
    }
}

/// A highlighted, UTF-8-safe byte range into the supplied source.
#[derive(Debug, Clone, Copy, PartialEq, Eq)]
pub struct HighlightSpan {
    pub start: usize,
    pub end: usize,
    pub foreground: Rgba,
    pub font_style: FontStyle,
}

/// Style assigned to a capture name.
#[derive(Debug, Clone, Copy, PartialEq, Eq, Structural)]
pub struct SyntaxStyle {
    pub foreground: Rgba,
    pub font_style: FontStyle,
}

/// The colors of one tone of diff line.
#[derive(Debug, Clone, Copy, PartialEq, Eq, Structural)]
pub struct ToneColors {
    pub foreground: Rgba,
    pub background: Rgba,
}

/// Colors used by diff renderers.
#[derive(Debug, Clone, Copy, PartialEq, Eq, Structural)]
pub struct DiffPalette {
    pub background: Rgba,
    pub foreground: Rgba,
    pub gutter: Rgba,
    pub addition: Rgba,
    pub deletion: Rgba,
    pub addition_background: Rgba,
    pub deletion_background: Rgba,
    pub selection: Rgba,
    pub accent: Rgba,
    pub muted: Rgba,
    pub border: Rgba,
}

/// The colors of a tone: additions and removals have their own, context and
/// meta lines the default ones.
pub open spec fn tone_colors(p: DiffPalette, tone: DiffTone) -> ToneColors {
    match tone {
        DiffTone::Added => ToneColors { foreground: p.addition, background: p.addition_background },
        DiffTone::Removed => ToneColors { foreground: p.deletion, background: p.deletion_background },
        _ => ToneColors { foreground: p.foreground, background: p.background },
    }
}

impl DiffPalette {
    /// The colors of a tone.
    pub fn tone(&self, tone: DiffTone) -> (res: ToneColors)
        ensures
            res == tone_colors(*self, tone),
    {
        match tone {
            DiffTone::Added => ToneColors { foreground: self.addition, background: self.addition_background },
            DiffTone::Removed => ToneColors { foreground: self.deletion, background: self.deletion_background },
            _ => ToneColors { foreground: self.foreground, background: self.background },
        }
    }

    /// Every color of the palette, in field order.
    pub fn colors(&self) -> (res: [Rgba; 11])
        ensures
            res@ == seq![
                self.background,
                self.foreground,
                self.gutter,
                self.addition,
                self.deletion,
                self.addition_background,
                self.deletion_background,
                self.selection,
                self.accent,
                self.muted,
                self.border,
            ],
    {
        [
            self.background,
            self.foreground,
            self.gutter,
            self.addition,
            self.deletion,
            self.addition_background,
            self.deletion_background,
            self.selection,
            self.accent,
            self.muted,
            self.border,
        ]
    }
}

/// The alpha with which a line's tone is laid over the background.
pub const DIFF_BACKGROUND_ALPHA: u8 = 31;

/// The background of a changed line: its tone's color, faint, over the
/// palette background.
pub fn diff_background(foreground: Rgba, background: Rgba) -> (res: Rgba)
    ensures
        res.r == blend(foreground.r, background.r, DIFF_BACKGROUND_ALPHA),
        res.g == blend(foreground.g, background.g, DIFF_BACKGROUND_ALPHA),
        res.b == blend(foreground.b, background.b, DIFF_BACKGROUND_ALPHA),
        res.a == 255,
{
    Rgba::new(foreground.r, foreground.g, foreground.b, DIFF_BACKGROUND_ALPHA).over(background)
}

impl Default for DiffPalette {
    fn default() -> (res: DiffPalette)
        ensures
            res.background == (Rgba { r: 21, g: 29, b: 31, a: 255 }),
            res.foreground == (Rgba { r: 212, g: 221, b: 214, a: 255 }),
            res.gutter == (Rgba { r: 80, g: 96, b: 91, a: 255 }),
            res.addition == (Rgba { r: 179, g: 215, b: 98, a: 255 }),
            res.deletion == (Rgba { r: 223, g: 120, b: 122, a: 255 }),
            res.addition_background.r == blend(179, 21, DIFF_BACKGROUND_ALPHA),
            res.addition_background.g == blend(215, 29, DIFF_BACKGROUND_ALPHA),
            res.addition_background.b == blend(98, 31, DIFF_BACKGROUND_ALPHA),
            res.addition_background.a == 255,
            res.deletion_background.r == blend(223, 21, DIFF_BACKGROUND_ALPHA),
            res.deletion_background.g == blend(120, 29, DIFF_BACKGROUND_ALPHA),
            res.deletion_background.b == blend(122, 31, DIFF_BACKGROUND_ALPHA),
            res.deletion_background.a == 255,
            res.selection == (Rgba { r: 143, g: 188, b: 176, a: 45 }),
            res.accent == (Rgba { r: 143, g: 188, b: 176, a: 255 }),
            res.muted == (Rgba { r: 125, g: 143, b: 136, a: 255 }),
            res.border == (Rgba { r: 57, g: 73, b: 73, a: 255 }),
    {
        let background = Rgba::new(21, 29, 31, 255);
        let addition = Rgba::new(179, 215, 98, 255);
        let deletion = Rgba::new(223, 120, 122, 255);
        DiffPalette {
            background,
            foreground: Rgba::default(),
            gutter: Rgba::new(80, 96, 91, 255),
            addition,
            deletion,
            addition_background: diff_background(addition, background),
            deletion_background: diff_background(deletion, background),
            selection: Rgba::new(143, 188, 176, 45),
            accent: Rgba::new(143, 188, 176, 255),
            muted: Rgba::new(125, 143, 136, 255),
            border: Rgba::new(57, 73, 73, 255),
        }
    }
}

/// Stable identifiers for embedded and host-provided themes.
#[derive(Debug, PartialEq, Eq)]
pub enum ThemeId {
    Sage,
    Ayu,
    Custom(String),
}

/// The display name of a theme identifier.
pub open spec fn theme_name(id: ThemeId) -> Seq<char> {
    match id {
        ThemeId::Sage => "sage"@,
        ThemeId::Ayu => "ayu-dark"@,
        ThemeId::Custom(name) => name@,
    }
}

impl Default for ThemeId {
    fn default() -> (res: ThemeId)
        ensures
            res == ThemeId::Sage,
    {
        ThemeId::Sage
    }
}

impl ThemeId {
    /// The display name of this theme.
    pub fn name(&self) -> (res: String)
        ensures
            res@ == theme_name(*self),
    {
        let text = match self {
            ThemeId::Sage => "sage",
            ThemeId::Ayu => "ayu-dark",
            ThemeId::Custom(name) => name.as_str(),
        };
        let chars = chars_of(text);
        string_from_chars(chars.as_slice())
    }

    /// A copy of this identifier.
    pub fn duplicate(&self) -> (res: ThemeId)
        ensures
            res == *self,
    {
        match self {
            ThemeId::Sage => ThemeId::Sage,
            ThemeId::Ayu => ThemeId::Ayu,
            ThemeId::Custom(name) => ThemeId::Custom(name.clone()),
        }
    }
}

/// Errors produced while loading theme JSON.
#[derive(Debug, Clone, PartialEq, Eq)]
pub enum ThemeError {
    Parse { message: String },
    UnsupportedVersion { version: u32 },
}

/// The capture names of a syntax table.
pub open spec fn capture_names(syntax: Seq<(String, SyntaxStyle)>) -> Seq<Seq<char>> {
    syntax.map_values(|e: (String, SyntaxStyle)| e.0@)
}

/// Whether no capture name occurs twice.
pub open spec fn distinct_names(syntax: Seq<(String, SyntaxStyle)>) -> bool {
    forall|i: int, j: int|
        0 <= i < j < syntax.len() ==> (#[trigger] syntax[i]).0@ != (#[trigger] syntax[j]).0@
}

/// The style of an exact capture name.
pub open spec fn style_of(syntax: Seq<(String, SyntaxStyle)>, name: Seq<char>) -> Option<SyntaxStyle> {
    if exists|i: int| 0 <= i < syntax.len() && (#[trigger] syntax[i]).0@ == name {
        Some(syntax[choose|i: int| 0 <= i < syntax.len() && (#[trigger] syntax[i]).0@ == name].1)
    } else {
        None
    }
}

/// The name without its last dot-separated suffix, if it has a dot.
pub open spec fn parent_capture(name: Seq<char>) -> Option<Seq<char>> {
    let d = crate::file_diff::last_index_of(name, '.');
    if d >= 0 {
        Some(name.take(d))
    } else {
        None
    }
}

/// The style for a capture: its own, else its nearest dot-separated
/// parent's.
pub open spec fn resolved_style(syntax: Seq<(String, SyntaxStyle)>, name: Seq<char>) -> Option<SyntaxStyle>
    decreases name.len(),
{
    match style_of(syntax, name) {
        Some(s) => Some(s),
        None => match parent_capture(name) {
            Some(p) => if p.len() < name.len() {
                resolved_style(syntax, p)
            } else {
                None
            },
            None => None,
        },
    }
}

/// The supported version of the theme document.
pub const THEME_VERSION: u32 = 1;

/// A capture-based syntax theme plus semantic colors for the diff UI.
pub struct DiffTheme {
    id: ThemeId,
    palette: DiffPalette,
    syntax: Vec<(String, SyntaxStyle)>,
    revision: Fingerprint,
}

pub struct ThemeView {
    pub id: ThemeId,
    pub palette: DiffPalette,
    pub syntax: Seq<(String, SyntaxStyle)>,
    pub revision: Seq<u8>,
}

impl View for DiffTheme {
    type V = ThemeView;

    closed spec fn view(&self) -> ThemeView {
        ThemeView { id: self.id, palette: self.palette, syntax: self.syntax@, revision: self.revision.bytes@ }
    }
}

/// The revision of a theme: the fingerprint of its name and its canonical
/// document.
pub open spec fn theme_revision(id: ThemeId, canonical: Seq<u8>) -> Seq<u8> {
    blake3_digest(encode_fields(seq![encode_utf8(theme_name(id)), canonical]))
}

impl DiffTheme {
    /// Builds a theme from a parsed document: its version must be the
    /// supported one. `canonical` is the document's canonical serialization,
    /// which with the name fixes the revision.
    pub fn from_document(
        id: ThemeId,
        version: u32,
        palette: DiffPalette,
        syntax: Vec<(String, SyntaxStyle)>,
        canonical: &[u8],
    ) -> (res: Result<DiffTheme, ThemeError>)
        requires
            distinct_names(syntax@),
        ensures
            version != THEME_VERSION ==> res == Err::<DiffTheme, ThemeError>(ThemeError::UnsupportedVersion { version }),
            version == THEME_VERSION ==> (res matches Ok(t) && t@ == (ThemeView {
                id,
                palette,
                syntax: syntax@,
                revision: theme_revision(id, canonical@),
            })),
    {
        if version != THEME_VERSION {
            return Err(ThemeError::UnsupportedVersion { version });
        }
        let name = id.name();
        let mut fields: Vec<Vec<u8>> = Vec::new();
        fields.push(crate::text::bytes_to_vec(name.as_str().as_bytes()));
        fields.push(crate::text::bytes_to_vec(canonical));
        let revision = Fingerprint::of(&fields);
        proof {
            assert(crate::fingerprint::field_views(fields@) =~= seq![encode_utf8(theme_name(id)), canonical@]);
        }
        Ok(DiffTheme { id, palette, syntax, revision })
    }

    pub fn id(&self) -> (res: &ThemeId)
        ensures
            *res == self@.id,
    {
        &self.id
    }

    pub fn palette(&self) -> (res: &DiffPalette)
        ensures
            *res == self@.palette,
    {
        &self.palette
    }

    pub fn revision(&self) -> (res: Fingerprint)
        ensures
            res.bytes@ == self@.revision,
    {
        self.revision
    }

    fn exact_style(&self, name: &Vec<char>) -> (res: Option<SyntaxStyle>)
        ensures
            res == style_of(self@.syntax, name@),
    {
        proof {
            use_type_invariant(self);
        }
        let mut i: usize = 0;
        while i < self.syntax.len()
            invariant
                i <= self.syntax@.len(),
                distinct_names(self.syntax@),
                forall|k: int| 0 <= k < i ==> (#[trigger] self.syntax@[k]).0@ != name@,
            decreases self.syntax@.len() - i,
        {
            let key = chars_of(self.syntax[i].0.as_str());
            if crate::text::chars_equal(key.as_slice(), name.as_slice()) {
                proof {
                    assert(self.syntax@[i as int].0@ == name@);
                    let c = choose|k: int| 0 <= k < self.syntax@.len() && (#[trigger] self.syntax@[k]).0@ == name@;
                    if c < i {
                        assert(self.syntax@[c].0@ != self.syntax@[i as int].0@);
                    } else if c > i {
                        assert(self.syntax@[i as int].0@ != self.syntax@[c].0@);
                    }
                }
                return Some(self.syntax[i].1);
            }
            i = i + 1;
        }
        None
    }

    /// The theme's capture names are distinct.
    #[verifier::type_invariant]
    closed spec fn wf_names(&self) -> bool {
        distinct_names(self.syntax@)
    }

    /// Resolves an exact capture or its nearest dot-separated parent.
    pub fn style(&self, capture: &str) -> (res: Option<SyntaxStyle>)
        ensures
            res == resolved_style(self@.syntax, capture@),
    {
        let mut candidate = chars_of(capture);
        loop
            invariant
                resolved_style(self@.syntax, capture@) == resolved_style(self@.syntax, candidate@),
            decreases candidate@.len(),
        {
            match self.exact_style(&candidate) {
                Some(s) => {
                    return Some(s);
                },
                None => {},
            }
            proof {
                crate::file_diff::lemma_last_index_bounds(candidate@, '.');
                assert(candidate@.skip(0) =~= candidate@);
            }
            match crate::file_diff::last_index(&candidate, 0, '.') {
                None => {
                    return None;
                },
                Some(d) => {
                    let mut parent: Vec<char> = Vec::new();
                    let mut k: usize = 0;
                    while k < d
                        invariant
                            k <= d < candidate@.len(),
                            parent@ == candidate@.take(k as int),
                        decreases d - k,
                    {
                        parent.push(candidate[k]);
                        proof {
                            assert(candidate@.take(k + 1) =~= candidate@.take(k as int).push(candidate@[k as int]));
                        }
                        k = k + 1;
                    }
                    candidate = parent;
                },
            }
        }
    }
}

} // verus!
