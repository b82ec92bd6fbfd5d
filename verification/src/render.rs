//! Turning what a command has to say into styled terminal output.

use vstd::prelude::*;
use termtree::Tree;

use crate::listing::{node, outline, palettes, with_glyphs};
use crate::text::{chars_of, last_index, rsplit_once, text_of, trim_end, trimmed_len};

verus! {

/// A colour: one of the sixteen the terminal names itself (numbered as
/// `anstyle::AnsiColor` orders them, black 0 to bright white 15), or one of
/// the 256 of the extended palette.
#[derive(Clone, Copy, Debug, PartialEq, Eq)]
pub enum Shade {
    Basic(u8),
    Indexed(u8),
}

/// How a piece of text is drawn: its colours and whether it is bold or dim.
#[derive(Clone, Copy, Debug, PartialEq, Eq)]
pub struct Look {
    pub fg: Option<Shade>,
    pub bg: Option<Shade>,
    pub bold: bool,
    pub dimmed: bool,
}

pub const RED: u8 = 1;
pub const GREEN: u8 = 2;
pub const YELLOW: u8 = 3;
pub const BLUE: u8 = 4;
pub const BRIGHT_RED: u8 = 9;

pub open spec fn shade_ok(shade: Option<Shade>) -> bool {
    match shade {
        Some(Shade::Basic(n)) => n < 16,
        _ => true,
    }
}

impl Look {
    /// Every colour named is one the terminal has.
    pub open spec fn well_formed(self) -> bool {
        shade_ok(self.fg) && shade_ok(self.bg)
    }

    /// Nothing about the text is changed.
    pub open spec fn is_plain(self) -> bool {
        self.fg is None && self.bg is None && !self.bold && !self.dimmed
    }

    /// The look that changes nothing.
    #[verifier::allow_in_spec]
    pub fn plain() -> Look
        returns
            (Look { fg: None, bg: None, bold: false, dimmed: false }),
    {
        Look { fg: None, bg: None, bold: false, dimmed: false }
    }

    /// Text in one of the sixteen named colours, on the terminal's own background.
    #[verifier::allow_in_spec]
    pub fn on_default(color: u8) -> Look
        returns
            (Look { fg: Some(Shade::Basic(color)), bg: None, bold: false, dimmed: false }),
    {
        Look { fg: Some(Shade::Basic(color)), bg: None, bold: false, dimmed: false }
    }

    /// The same look, in bold.
    #[verifier::allow_in_spec]
    pub fn bolded(self) -> Look
        returns
            (Look { bold: true, ..self }),
    {
        Look { bold: true, ..self }
    }

    /// The same look, dimmed.
    #[verifier::allow_in_spec]
    pub fn dim(self) -> Look
        returns
            (Look { dimmed: true, ..self }),
    {
        Look { dimmed: true, ..self }
    }
}

/// The `error` label, as opposed to the message it introduces.
#[verifier::allow_in_spec]
pub fn error() -> Look
    returns
        Look::on_default(RED).bolded(),
{
    Look::on_default(RED).bolded()
}

/// The `fatal` label, brighter than the `error` one because nothing ran at all.
#[verifier::allow_in_spec]
pub fn fatal() -> Look
    returns
        Look::on_default(BRIGHT_RED).bolded(),
{
    Look::on_default(BRIGHT_RED).bolded()
}

/// The message an `error` label introduces.
#[verifier::allow_in_spec]
pub fn headline() -> Look
    returns
        Look::plain().bolded(),
{
    Look::plain().bolded()
}

/// A directory, bold so it reads apart from the files under it.
#[verifier::allow_in_spec]
pub fn dir() -> Look
    returns
        Look::plain().bolded(),
{
    Look::plain().bolded()
}

/// An aside spelling out in prose what a colour already says.
#[verifier::allow_in_spec]
pub fn note() -> Look
    returns
        Look::plain().dim(),
{
    Look::plain().dim()
}

/// The `step` label, the same shape of line as `error` and in blue where that is red.
#[verifier::allow_in_spec]
pub fn step() -> Look
    returns
        Look::on_default(BLUE).bolded(),
{
    Look::on_default(BLUE).bolded()
}

/// The `done` label, closing a command that got where it was going.
#[verifier::allow_in_spec]
pub fn done() -> Look
    returns
        Look::on_default(GREEN).bolded(),
{
    Look::on_default(GREEN).bolded()
}

/// A file that is itself the reason a command refused to run: on a dark red
/// background, the bright red one swallowing the text on it.
#[verifier::allow_in_spec]
pub fn disallowed() -> Look
    returns
        (Look { fg: None, bg: Some(Shade::Indexed(52)), bold: false, dimmed: false }),
{
    Look { fg: None, bg: Some(Shade::Indexed(52)), bold: false, dimmed: false }
}

/// Tree scaffolding, dim so it recedes behind what it holds.
#[verifier::allow_in_spec]
pub fn branch() -> Look
    returns
        Look::plain().dim(),
{
    Look::plain().dim()
}

/// `n` written out in decimal, with no leading zeros.
pub open spec fn decimal(n: u8) -> Seq<char> {
    let m = n as int;
    let digit = |k: int| (48 + k) as char;
    if m >= 100 {
        seq![digit(m / 100), digit((m / 10) % 10), digit(m % 10)]
    } else if m >= 10 {
        seq![digit(m / 10), digit(m % 10)]
    } else {
        seq![digit(m)]
    }
}

/// `ESC [ <code> m`, one select-graphic-rendition code.
pub open spec fn code(body: Seq<char>) -> Seq<char> {
    seq!['\u{1b}', '['] + body + seq!['m']
}

/// The code that sets a colour: `base` is `3` for text and `4` for the
/// background; the bright eight take `9` and `10` in their place, and the
/// extended palette `38;5;<n>` and `48;5;<n>`.
pub open spec fn color_code(shade: Option<Shade>, base: Seq<char>, bright: Seq<char>) -> Seq<char> {
    match shade {
        Some(Shade::Basic(n)) => if n < 8 {
            code(base + decimal(n))
        } else {
            code(bright + decimal((n - 8) as u8))
        },
        Some(Shade::Indexed(n)) => code(base + seq!['8', ';', '5', ';'] + decimal(n)),
        None => seq![],
    }
}

/// The escape sequence `anstyle` writes to switch a terminal to `look`: one
/// code per effect, bold before dim, then the text colour, then the background.
pub open spec fn sgr(look: Look) -> Seq<char> {
    (if look.bold { code(seq!['1']) } else { seq![] }) + (if look.dimmed { code(seq!['2']) } else { seq![] })
        + color_code(look.fg, seq!['3'], seq!['9']) + color_code(look.bg, seq!['4'], seq!['1', '0'])
}

/// Calls `anstyle::Style::render` on the style `look` describes. Claimed: it
/// writes what `sgr` spells out (`Style::render` writes the effects' codes in
/// order, then `render_fg` and `render_bg` of the colours, the sixteen named
/// ones by `AnsiColor`'s tables and the others by `Ansi256Color`'s buffer).
#[verifier::external_body]
fn escape_codes(look: Look) -> (r: String)
    requires
        look.well_formed(),
    ensures
        r@ == sgr(look),
{
    let color = |shade: Option<Shade>| match shade {
        Some(Shade::Basic(n)) => anstyle::Ansi256Color(n).into_ansi().map(anstyle::Color::Ansi),
        Some(Shade::Indexed(n)) => Some(anstyle::Color::Ansi256(anstyle::Ansi256Color(n))),
        None => None,
    };
    let effects = anstyle::Effects::new().set(anstyle::Effects::BOLD, look.bold).set(
        anstyle::Effects::DIMMED,
        look.dimmed,
    );
    anstyle::Style::new().fg_color(color(look.fg)).bg_color(color(look.bg)).effects(effects).render().to_string()
}

/// What `anstyle::Style::render_reset` writes: the reset code, elided where
/// there is nothing to reset.
pub open spec fn reset_of(look: Look) -> Seq<char> {
    if look.is_plain() {
        seq![]
    } else {
        seq!['\u{1b}', '[', '0', 'm']
    }
}

/// The reset code that closes text drawn in `look`.
pub fn reset_code(look: Look) -> (r: String)
    ensures
        r@ == reset_of(look),
{
    if look.fg.is_none() && look.bg.is_none() && !look.bold && !look.dimmed {
        String::new()
    } else {
        let code = "\u{1b}[0m";
        proof {
            reveal_strlit("\u{1b}[0m");
        }
        code.to_owned()
    }
}

/// `text` wrapped in `look`, closed so the styling cannot bleed into whatever follows.
pub open spec fn painted(look: Look, text: Seq<char>) -> Seq<char> {
    sgr(look) + text + reset_of(look)
}

/// Wraps `text` in `look`, closing it so the styling cannot bleed into
/// whatever follows; a plain look leaves `text` untouched.
pub fn paint(look: Look, text: &str) -> (r: String)
    requires
        look.well_formed(),
    ensures
        r@ == painted(look, text@),
        look.is_plain() ==> r@ == text@,
{
    let mut r = escape_codes(look);
    r.append(text);
    let close = reset_code(look);
    r.append(close.as_str());
    r
}

/// A line saying what kind of line it is before it says anything else.
pub open spec fn labelled_line(look: Look, label: Seq<char>, message: Seq<char>) -> Seq<char> {
    painted(look, label) + seq![':', ' '] + message
}

/// A line saying what kind of line it is before it says anything else: only
/// the label is styled, the message being left to whoever composed it.
pub fn labelled(look: Look, label: &str, message: &str) -> (r: String)
    requires
        look.well_formed(),
    ensures
        r@ == labelled_line(look, label@, message@),
{
    let mut r = paint(look, label);
    let colon = ": ";
    proof {
        reveal_strlit(": ");
    }
    r.append(colon);
    r.append(message);
    r
}

/// A file path with the directories leading to it in bold.
pub open spec fn styled_path(base: Look, path: Seq<char>) -> Seq<char> {
    match rsplit_once(path, '/') {
        Some((dir, file)) => painted(base.bolded(), dir + seq!['/']) + painted(base, file),
        None => painted(base, path),
    }
}

/// A file path, with the directories leading to it in bold; `base` styles the
/// whole of it.
pub fn file_path(base: Look, path: &str) -> (r: String)
    requires
        base.well_formed(),
    ensures
        r@ == styled_path(base, path@),
{
    let cs = chars_of(path);
    let s = cs.as_slice();
    let n = s.len();
    match last_index(s, '/') {
        Some(k) => {
            proof {
                crate::text::lemma_last_of_bounds(s@, '/');
            }
            let dir = text_of(s, 0, k + 1);
            let file = text_of(s, k + 1, n);
            proof {
                assert(dir@ == path@.take(k as int) + seq!['/']);
                assert(file@ == path@.skip(k + 1));
            }
            let mut r = paint(base.bolded(), dir.as_str());
            let tail = paint(base, file.as_str());
            r.append(tail.as_str());
            r
        },
        None => paint(base, path),
    }
}

/// What the root of a listing reads: the work tree, trailing slashes left to
/// the branches to draw unless trimming them leaves nothing to name.
pub open spec fn root_label(root: Seq<char>) -> Seq<char> {
    if trim_end(root, '/').len() == 0 {
        seq!['/']
    } else {
        trim_end(root, '/')
    }
}

/// The glyphs a tree's branches are drawn with, in the order termtree's
/// palette names them: middle item, last item, item indent, middle skip, last
/// skip, skip indent.
pub open spec fn glyphs() -> Seq<Seq<char>> {
    seq![
        seq!['\u{251c}'],
        seq!['\u{2514}'],
        seq!['\u{2500}', '\u{2500}', ' '],
        seq!['\u{2502}'],
        seq![' '],
        seq![' ', ' ', ' '],
    ]
}

/// termtree pairs the middle item with the middle skip, the last item with
/// the last skip, and the item indent with the skip indent, and draws the two
/// halves of each pair in the same columns: they are the same width.
pub proof fn lemma_glyph_pairs_match()
    ensures
        glyphs()[0].len() == glyphs()[3].len(),
        glyphs()[1].len() == glyphs()[4].len(),
        glyphs()[2].len() == glyphs()[5].len(),
{
}

/// The branch glyphs, each dimmed so the branches recede and let the entries
/// carry the tree; every piece is styled alike, so the two halves of each of
/// termtree's pairs stay the same width.
pub fn branches() -> (r: Vec<String>)
    ensures
        r.deep_view() == glyphs().map_values(|g: Seq<char>| painted(branch(), g)),
{
    let raw = ["\u{251c}", "\u{2514}", "\u{2500}\u{2500} ", "\u{2502}", " ", "   "];
    proof {
        reveal_strlit("\u{251c}");
        reveal_strlit("\u{2514}");
        reveal_strlit("\u{2500}\u{2500} ");
        reveal_strlit("\u{2502}");
        reveal_strlit(" ");
        reveal_strlit("   ");
    }
    let mut r: Vec<String> = Vec::new();
    let mut i: usize = 0;
    while i < 6
        invariant
            0 <= i <= 6,
            raw@.len() == 6,
            forall|j: int| 0 <= j < 6 ==> #[trigger] raw@[j]@ == glyphs()[j],
            r.deep_view() == glyphs().take(i as int).map_values(|g: Seq<char>| painted(branch(), g)),
        decreases 6 - i,
    {
        let g = paint(branch(), raw[i]);
        let ghost before = r.deep_view();
        r.push(g);
        proof {
            assert(r.deep_view() =~= before.push(g@));
            assert(glyphs().take(i + 1) =~= glyphs().take(i as int).push(glyphs()[i as int]));
            assert(glyphs().take(i + 1).map_values(|g: Seq<char>| painted(branch(), g))
                =~= glyphs().take(i as int).map_values(|g: Seq<char>| painted(branch(), g)).push(painted(branch(), glyphs()[i as int])));
        }
        i += 1;
    }
    proof {
        assert(glyphs().take(6) =~= glyphs());
    }
    r
}

/// The printable content `anstream` leaves of `text` once it strips the ANSI
/// escape sequences out of it.
pub uninterp spec fn without_escapes(text: Seq<char>) -> Seq<char>;

/// Calls `anstream::adapter::strip_str` and collects what it leaves. Claimed:
/// the result is a function of `text` alone.
#[verifier::external_body]
pub(crate) fn strip_escapes(text: &str) -> (r: String)
    ensures
        r@ == without_escapes(text@),
{
    anstream::adapter::strip_str(text).to_string()
}

} // verus!

verus! {

/// The branch glyphs as they are drawn, each dimmed.
pub open spec fn dimmed_glyphs() -> Seq<Seq<char>> {
    glyphs().map_values(|g: Seq<char>| painted(branch(), g))
}

/// A tree waiting for what sits under `root`, the work tree the paths git
/// reports are relative to, its branches dimmed so they recede and let the
/// entries carry the tree; set on the root alone, since termtree hands a
/// node's glyphs down to every descendant that does not override them.
pub fn rooted(root: &str) -> (r: Tree<String>)
    ensures
        outline(r) == seq![(0nat, painted(dir(), root_label(root@)))],
        palettes(r) == seq![Some(dimmed_glyphs())],
{
    let cs = chars_of(root);
    let n = trimmed_len(cs.as_slice(), '/');
    let label = if n == 0 {
        let slash = "/";
        proof {
            reveal_strlit("/");
        }
        let label = slash.to_owned();
        proof {
            assert(label@ =~= seq!['/']);
        }
        label
    } else {
        text_of(cs.as_slice(), 0, n)
    };
    proof {
        assert(cs@.subrange(0, n as int) == cs@.take(n as int));
    }
    let middle_item = "\u{1b}[2m\u{251c}\u{1b}[0m";
    let last_item = "\u{1b}[2m\u{2514}\u{1b}[0m";
    let item_indent = "\u{1b}[2m\u{2500}\u{2500} \u{1b}[0m";
    let middle_skip = "\u{1b}[2m\u{2502}\u{1b}[0m";
    let last_skip = "\u{1b}[2m \u{1b}[0m";
    let skip_indent = "\u{1b}[2m   \u{1b}[0m";
    proof {
        reveal_strlit("\u{1b}[2m\u{251c}\u{1b}[0m");
        reveal_strlit("\u{1b}[2m\u{2514}\u{1b}[0m");
        reveal_strlit("\u{1b}[2m\u{2500}\u{2500} \u{1b}[0m");
        reveal_strlit("\u{1b}[2m\u{2502}\u{1b}[0m");
        reveal_strlit("\u{1b}[2m \u{1b}[0m");
        reveal_strlit("\u{1b}[2m   \u{1b}[0m");
        assert(sgr(branch()) =~= seq!['\u{1b}', '[', '2', 'm']);
        assert(middle_item@ =~= painted(branch(), glyphs()[0]));
        assert(last_item@ =~= painted(branch(), glyphs()[1]));
        assert(item_indent@ =~= painted(branch(), glyphs()[2]));
        assert(middle_skip@ =~= painted(branch(), glyphs()[3]));
        assert(last_skip@ =~= painted(branch(), glyphs()[4]));
        assert(skip_indent@ =~= painted(branch(), glyphs()[5]));
        assert(seq![middle_item@, last_item@, item_indent@, middle_skip@, last_skip@, skip_indent@]
            =~= dimmed_glyphs());
    }
    with_glyphs(
        node(paint(dir(), label.as_str())),
        middle_item,
        last_item,
        item_indent,
        middle_skip,
        last_skip,
        skip_indent,
    )
}

} // verus!
