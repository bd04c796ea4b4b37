//! ANSI escape-code builders and a small catalogue of fixed escape strings.
//!
//! Parameterised codes are built at run time; every builder's contract states
//! the exact character sequence it produces.

use crate::digits::{dec_of, hex2_of, push_dec, push_hex2};
use crate::rgb::Rgb;
use vstd::prelude::*;
use vstd::string::StringExecFns;

verus! {

// --- Sequence introducers ---

/// The escape character.
pub const ESC: char = '\x1b';

/// Control Sequence Introducer: start of a CSI sequence.
pub const CSI: &'static str = "\x1b[";

/// Operating System Command: start of an OSC sequence.
pub const OSC: &'static str = "\x1b]";

/// String terminator: ends an OSC sequence.
pub const ST: &'static str = "\x1b\\";

// --- Fixed text-mode codes ---

/// Resets all the text modes (colors and styles).
pub const RESET: &'static str = "\x1b[0m";

/// Set bold text mode.
pub const BOLD: &'static str = "\x1b[1m";

/// Set italic mode.
pub const ITALIC: &'static str = "\x1b[3m";

/// Set underline mode.
pub const UNDERLINE: &'static str = "\x1b[4m";

/// Set inverse mode (swap foreground and background).
pub const INVERSE: &'static str = "\x1b[7m";

/// Set strikethrough mode.
pub const STRIKETROUGH: &'static str = "\x1b[9m";

// --- Fixed foreground colors ---

/// Set the foreground color to black.
pub const BLACK_FG: &'static str = "\x1b[30m";

/// Set the foreground color to white.
pub const WHITE_FG: &'static str = "\x1b[97m";

/// Set the foreground color to gray.
pub const GRAY_FG: &'static str = "\x1b[90m";

/// Set the foreground color to bright red.
pub const RED_FG: &'static str = "\x1b[91m";

/// Set the foreground color to bright green.
pub const GREEN_FG: &'static str = "\x1b[92m";

/// Set the foreground color to bright yellow.
pub const YELLOW_FG: &'static str = "\x1b[93m";

/// Set the foreground color to bright blue.
pub const BLUE_FG: &'static str = "\x1b[94m";

/// Set the foreground color to bright magenta.
pub const MAGENTA_FG: &'static str = "\x1b[95m";

/// Set the foreground color to bright cyan.
pub const CYAN_FG: &'static str = "\x1b[96m";

/// Reset the foreground color.
pub const RESET_FG: &'static str = "\x1b[39m";

// --- Fixed background colors ---

/// Set the background color to black.
pub const BLACK_BG: &'static str = "\x1b[40m";

/// Set the background color to white.
pub const WHITE_BG: &'static str = "\x1b[107m";

/// Set the background color to bright red.
pub const RED_BG: &'static str = "\x1b[101m";

/// Set the background color to bright green.
pub const GREEN_BG: &'static str = "\x1b[102m";

/// Set the background color to bright yellow.
pub const YELLOW_BG: &'static str = "\x1b[103m";

/// Set the background color to bright blue.
pub const BLUE_BG: &'static str = "\x1b[104m";

/// Set the background color to bright magenta.
pub const MAGENTA_BG: &'static str = "\x1b[105m";

/// Set the background color to bright cyan.
pub const CYAN_BG: &'static str = "\x1b[106m";

/// Reset the background color.
pub const RESET_BG: &'static str = "\x1b[49m";

// --- Erase and cursor codes ---

/// Erases the whole screen and the scrollback buffer and moves the cursor to
/// the top left.
pub const CLEAR: &'static str = "\x1b[2J\x1b[3J\x1b[H";

/// Erases the entire line.
pub const ERASE_LINE: &'static str = "\x1b[2K";

/// Makes the cursor invisible.
pub const HIDE_CURSOR: &'static str = "\x1b[?25l";

/// Makes the cursor visible.
pub const SHOW_CURSOR: &'static str = "\x1b[?25h";

// --- CSI builder ---

/// The text of sequence parameters: decimal values joined by `;`.
pub open spec fn args_text(args: Seq<u64>) -> Seq<char>
    decreases args.len(),
{
    if args.len() == 0 {
        Seq::empty()
    } else if args.len() == 1 {
        dec_of(args[0] as int)
    } else {
        dec_of(args[0] as int) + seq![';'] + args_text(args.skip(1))
    }
}

/// The text of a CSI escape sequence: the introducer, the parameters joined
/// by `;`, and the final characters.
pub open spec fn csi_of(args: Seq<u64>, end: Seq<char>) -> Seq<char> {
    "\x1b["@ + args_text(args) + end
}

proof fn lemma_args_text_push(s: Seq<u64>, x: u64)
    ensures
        args_text(s.push(x)) == if s.len() == 0 {
            dec_of(x as int)
        } else {
            args_text(s) + seq![';'] + dec_of(x as int)
        },
    decreases s.len(),
{
    if s.len() == 0 {
        assert(s.push(x) =~= seq![x]);
    } else {
        lemma_args_text_push(s.skip(1), x);
        assert(s.push(x).skip(1) =~= s.skip(1).push(x));
        assert(s.push(x)[0] == s[0]);
        assert(args_text(s.push(x)) =~= args_text(s) + seq![';'] + dec_of(x as int));
    }
}

/// Builds a CSI escape sequence from its parameters and final characters.
pub fn csi(args: &Vec<u64>, end: &str) -> (s: String)
    ensures
        s@ == csi_of(args@, end@),
{
    let mut s = String::from_str("\x1b[");
    let mut i: usize = 0;
    while i < args.len()
        invariant
            i <= args@.len(),
            s@ == "\x1b["@ + args_text(args@.take(i as int)),
        decreases args@.len() - i,
    {
        if i > 0 {
            s.append(";");
        }
        push_dec(&mut s, args[i]);
        proof {
            reveal_strlit(";");
            lemma_args_text_push(args@.take(i as int), args@[i as int]);
            assert(args@.take(i + 1 as int) =~= args@.take(i as int).push(args@[i as int]));
            assert(s@ =~= "\x1b["@ + args_text(args@.take(i + 1 as int)));
        }
        i = i + 1;
    }
    s.append(end);
    proof {
        assert(args@.take(args@.len() as int) =~= args@);
        assert(s@ =~= csi_of(args@, end@));
    }
    s
}

/// The true-color foreground escape sequence for a color.
pub open spec fn fg_of(c: Rgb) -> Seq<char> {
    csi_of(seq![38u64, 2u64, c.r as u64, c.g as u64, c.b as u64], "m"@)
}

/// The true-color background escape sequence for a color.
pub open spec fn bg_of(c: Rgb) -> Seq<char> {
    csi_of(seq![48u64, 2u64, c.r as u64, c.g as u64, c.b as u64], "m"@)
}

/// Builds the true-color foreground escape sequence for a color.
pub fn fg(color: Rgb) -> (s: String)
    ensures
        s@ == fg_of(color),
{
    let args: Vec<u64> = vec![38, 2, color.r as u64, color.g as u64, color.b as u64];
    let s = csi(&args, "m");
    proof {
        assert(args@ =~= seq![38u64, 2u64, color.r as u64, color.g as u64, color.b as u64]);
    }
    s
}

/// Builds the true-color background escape sequence for a color.
pub fn bg(color: Rgb) -> (s: String)
    ensures
        s@ == bg_of(color),
{
    let args: Vec<u64> = vec![48, 2, color.r as u64, color.g as u64, color.b as u64];
    let s = csi(&args, "m");
    proof {
        assert(args@ =~= seq![48u64, 2u64, color.r as u64, color.g as u64, color.b as u64]);
    }
    s
}


/// The cursor-move escape sequence for a count: moving by zero is no text
/// at all, as no move is needed.
pub open spec fn move_code_of(n: u64, end: Seq<char>) -> Seq<char> {
    if n == 0 {
        Seq::empty()
    } else {
        csi_of(seq![n], end)
    }
}

fn move_code(n: u64, end: &str) -> (s: String)
    ensures
        s@ == move_code_of(n, end@),
{
    if n == 0 {
        String::new()
    } else {
        let args: Vec<u64> = vec![n];
        let s = csi(&args, end);
        proof {
            assert(args@ =~= seq![n]);
        }
        s
    }
}

/// Moves the cursor up by `n` positions; zero positions is no code.
pub fn move_up(n: u64) -> (s: String)
    ensures
        s@ == move_code_of(n, "A"@),
{
    move_code(n, "A")
}

/// Moves the cursor down by `n` positions; zero positions is no code.
pub fn move_down(n: u64) -> (s: String)
    ensures
        s@ == move_code_of(n, "B"@),
{
    move_code(n, "B")
}

/// Moves the cursor right by `n` positions; zero positions is no code.
pub fn move_right(n: u64) -> (s: String)
    ensures
        s@ == move_code_of(n, "C"@),
{
    move_code(n, "C")
}

/// Moves the cursor left by `n` positions; zero positions is no code.
pub fn move_left(n: u64) -> (s: String)
    ensures
        s@ == move_code_of(n, "D"@),
{
    move_code(n, "D")
}

/// Moves the cursor to the given position; the top left corner is `(1, 1)`.
pub fn move_to(x: u64, y: u64) -> (s: String)
    ensures
        s@ == csi_of(seq![y, x], "H"@),
{
    let args: Vec<u64> = vec![y, x];
    let s = csi(&args, "H");
    proof {
        assert(args@ =~= seq![y, x]);
    }
    s
}

/// Moves the cursor to the given column.
pub fn cursor_column(n: u64) -> (s: String)
    ensures
        s@ == csi_of(seq![n], "G"@),
{
    let args: Vec<u64> = vec![n];
    let s = csi(&args, "G");
    proof {
        assert(args@ =~= seq![n]);
    }
    s
}

/// The 256-color foreground escape sequence for a palette index.
pub fn fg256(c: u8) -> (s: String)
    ensures
        s@ == csi_of(seq![38u64, 5u64, c as u64], "m"@),
{
    let args: Vec<u64> = vec![38, 5, c as u64];
    let s = csi(&args, "m");
    proof {
        assert(args@ =~= seq![38u64, 5u64, c as u64]);
    }
    s
}

/// The 256-color background escape sequence for a palette index.
pub fn bg256(c: u8) -> (s: String)
    ensures
        s@ == csi_of(seq![48u64, 5u64, c as u64], "m"@),
{
    let args: Vec<u64> = vec![48, 5, c as u64];
    let s = csi(&args, "m");
    proof {
        assert(args@ =~= seq![48u64, 5u64, c as u64]);
    }
    s
}

// --- Cursor style ---

/// The available terminal cursor shapes, each with its blink choice.
#[derive(Clone, Debug, Copy, Eq, PartialEq, Structural)]
pub enum CursorStyle {
    /// Set cursor to block.
    /// - `true` -> blink
    /// - `false` -> don't blink
    /// - `None` -> blink (default)
    Block(Option<bool>),
    /// Set cursor to underline.
    /// - `true` -> blink
    /// - `false` -> don't blink
    Underline(bool),
    /// Set cursor to vertical bar.
    /// - `true` -> blink
    /// - `false` -> don't blink
    Bar(bool),
}

/// The numeric parameter that selects a cursor style.
pub open spec fn cursor_style_code(style: CursorStyle) -> u64 {
    match style {
        CursorStyle::Block(Some(true)) => 0,
        CursorStyle::Block(None) => 1,
        CursorStyle::Block(Some(false)) => 2,
        CursorStyle::Underline(true) => 3,
        CursorStyle::Underline(false) => 4,
        CursorStyle::Bar(true) => 5,
        CursorStyle::Bar(false) => 6,
    }
}

/// Builds the escape sequence that sets the cursor style.
pub fn set_cursor(style: CursorStyle) -> (s: String)
    ensures
        s@ == csi_of(seq![cursor_style_code(style)], " q"@),
{
    let code: u64 = match style {
        CursorStyle::Block(Some(true)) => 0,
        CursorStyle::Block(None) => 1,
        CursorStyle::Block(Some(false)) => 2,
        CursorStyle::Underline(true) => 3,
        CursorStyle::Underline(false) => 4,
        CursorStyle::Bar(true) => 5,
        CursorStyle::Bar(false) => 6,
    };
    let args: Vec<u64> = vec![code];
    let s = csi(&args, " q");
    proof {
        assert(args@ =~= seq![cursor_style_code(style)]);
    }
    s
}

// --- OSC color codes ---

/// The color text used in OSC color sequences: `rgb:rr/gg/bb` with two
/// lowercase hexadecimal digits per channel.
pub open spec fn rgb_text(c: Rgb) -> Seq<char> {
    "rgb:"@ + hex2_of(c.r as int) + "/"@ + hex2_of(c.g as int) + "/"@ + hex2_of(c.b as int)
}

fn push_rgb_text(s: &mut String, c: Rgb)
    ensures
        final(s)@ == old(s)@ + rgb_text(c),
{
    s.append("rgb:");
    push_hex2(s, c.r);
    s.append("/");
    push_hex2(s, c.g);
    s.append("/");
    push_hex2(s, c.b);
    assert(final(s)@ =~= old(s)@ + rgb_text(c));
}

/// The OSC sequence that sets one terminal color slot to a color.
pub open spec fn osc_color_of(kind: u64, c: Rgb) -> Seq<char> {
    "\x1b]"@ + dec_of(kind as int) + ";"@ + rgb_text(c) + "\x1b\\"@
}

fn osc_color(kind: u64, color: Rgb) -> (s: String)
    ensures
        s@ == osc_color_of(kind, color),
{
    let mut s = String::from_str("\x1b]");
    push_dec(&mut s, kind);
    s.append(";");
    push_rgb_text(&mut s, color);
    s.append("\x1b\\");
    proof {
        assert(s@ =~= osc_color_of(kind, color));
    }
    s
}

/// The OSC sequence that defines the color for the given color code.
pub open spec fn define_color_code_of(code: u8, c: Rgb) -> Seq<char> {
    "\x1b]4;"@ + dec_of(code as int) + ";"@ + rgb_text(c) + "\x1b\\"@
}

/// Defines the color for the given color code.
pub fn define_color_code(code: u8, color: Rgb) -> (s: String)
    ensures
        s@ == define_color_code_of(code, color),
{
    let mut s = String::from_str("\x1b]4;");
    push_dec(&mut s, code as u64);
    s.append(";");
    push_rgb_text(&mut s, color);
    s.append("\x1b\\");
    proof {
        assert(s@ =~= define_color_code_of(code, color));
    }
    s
}

/// Sets the default foreground color.
pub fn set_default_fg_color(color: Rgb) -> (s: String)
    ensures
        s@ == osc_color_of(10, color),
{
    osc_color(10, color)
}

/// Sets the default background color.
pub fn set_default_bg_color(color: Rgb) -> (s: String)
    ensures
        s@ == osc_color_of(11, color),
{
    osc_color(11, color)
}

/// Sets the color of the cursor.
pub fn set_cursor_color(color: Rgb) -> (s: String)
    ensures
        s@ == osc_color_of(12, color),
{
    osc_color(12, color)
}

// --- Selection buffers ---

/// Specifies the selection buffer.
#[derive(Clone, Debug, Copy, Eq, PartialEq, Structural)]
pub enum Selection {
    Clipboard,
    Primary,
    Secondary,
    /// Either the primary or the clipboard buffer, whichever is the
    /// configured default.
    Select,
    Cut0,
    Cut1,
    Cut2,
    Cut3,
    Cut4,
    Cut5,
    Cut6,
    Cut7,
}

impl Selection {
    /// The character that names this selection buffer in an OSC sequence.
    pub open spec fn char_of(self) -> char {
        match self {
            Selection::Clipboard => 'c',
            Selection::Primary => 'p',
            Selection::Secondary => 'q',
            Selection::Select => 's',
            Selection::Cut0 => '0',
            Selection::Cut1 => '1',
            Selection::Cut2 => '2',
            Selection::Cut3 => '3',
            Selection::Cut4 => '4',
            Selection::Cut5 => '5',
            Selection::Cut6 => '6',
            Selection::Cut7 => '7',
        }
    }

    /// Returns the character that names this selection buffer.
    pub fn get_char(&self) -> (c: char)
        ensures
            c == self.char_of(),
    {
        match self {
            Selection::Clipboard => 'c',
            Selection::Primary => 'p',
            Selection::Secondary => 'q',
            Selection::Select => 's',
            Selection::Cut0 => '0',
            Selection::Cut1 => '1',
            Selection::Cut2 => '2',
            Selection::Cut3 => '3',
            Selection::Cut4 => '4',
            Selection::Cut5 => '5',
            Selection::Cut6 => '6',
            Selection::Cut7 => '7',
        }
    }
}

/// The buffer-name characters of a selection list, in order.
pub open spec fn sel_chars(sel: Seq<Selection>) -> Seq<char>
    decreases sel.len(),
{
    if sel.len() == 0 {
        Seq::empty()
    } else {
        seq![sel[0].char_of()] + sel_chars(sel.skip(1))
    }
}

proof fn lemma_sel_chars_push(s: Seq<Selection>, x: Selection)
    ensures
        sel_chars(s.push(x)) == sel_chars(s) + seq![x.char_of()],
    decreases s.len(),
{
    if s.len() == 0 {
        assert(s.push(x) =~= seq![x]);
        assert(s.push(x).skip(1) =~= Seq::<Selection>::empty());
        assert(sel_chars(s.push(x).skip(1)) == Seq::<char>::empty());
        assert(sel_chars(s) == Seq::<char>::empty());
        assert(sel_chars(s.push(x)) =~= sel_chars(s) + seq![x.char_of()]);
    } else {
        lemma_sel_chars_push(s.skip(1), x);
        let sp = s.push(x);
        assert(sp.len() == s.len() + 1);
        assert(sel_chars(sp) == seq![sp[0].char_of()] + sel_chars(sp.skip(1)));
        assert(sp.skip(1) =~= s.skip(1).push(x));
        assert(sel_chars(sp.skip(1)) == sel_chars(s.skip(1)) + seq![x.char_of()]);
        assert(sp[0] == s[0]);
        assert(sel_chars(s) == seq![s[0].char_of()] + sel_chars(s.skip(1)));
        assert(sel_chars(sp) =~= sel_chars(s) + seq![x.char_of()]);
    }
}

/// The common head of a selection OSC sequence: the introducer, the buffer
/// names, and the separator before the payload.
pub open spec fn prepare_selection_of(sel: Seq<Selection>) -> Seq<char> {
    "\x1b]52;"@ + sel_chars(sel) + ";"@
}

fn prepare_selection(sel: &Vec<Selection>) -> (s: String)
    ensures
        s@ == prepare_selection_of(sel@),
{
    let mut s = String::from_str("\x1b]52;");
    let mut i: usize = 0;
    while i < sel.len()
        invariant
            i <= sel@.len(),
            s@ == "\x1b]52;"@ + sel_chars(sel@.take(i as int)),
        decreases sel@.len() - i,
    {
        push_char(&mut s, sel[i].get_char());
        proof {
            lemma_sel_chars_push(sel@.take(i as int), sel@[i as int]);
            assert(sel@.take(i + 1 as int) =~= sel@.take(i as int).push(sel@[i as int]));
            assert(s@ =~= "\x1b]52;"@ + sel_chars(sel@.take(i + 1 as int)));
        }
        i = i + 1;
    }
    s.append(";");
    proof {
        assert(sel@.take(sel@.len() as int) =~= sel@);
        assert(s@ =~= prepare_selection_of(sel@));
    }
    s
}

/// Requests the selection data of the first available of the given selection
/// buffers. An empty list requests the default buffer selection.
pub fn request_selection(sel: &Vec<Selection>) -> (s: String)
    ensures
        s@ == prepare_selection_of(sel@) + "?\x1b\\"@,
{
    let mut s = prepare_selection(sel);
    s.append("?\x1b\\");
    s
}

/// What the standard padded base64 alphabet encodes a byte sequence to.
pub uninterp spec fn b64_of(data: Seq<u8>) -> Seq<char>;

/// Relies on base64's `Engine::encode` with the standard padded engine: the
/// encoding is a function of the input bytes alone. The length bound keeps
/// the input clear of the crate's internal buffer-size overflow.
#[verifier::external_body]
fn base64_encode(data: &Vec<u8>) -> (s: String)
    requires
        data@.len() / 3 * 4 + 4 <= usize::MAX,
    ensures
        s@ == b64_of(data@),
{
    base64::Engine::encode(&base64::prelude::BASE64_STANDARD, data.as_slice())
}

/// Sets the given selection buffers to the given payload, sent base64
/// encoded. An empty list sets the default selection buffers.
pub fn set_selection(sel: &Vec<Selection>, data: &Vec<u8>) -> (s: String)
    requires
        data@.len() / 3 * 4 + 4 <= usize::MAX,
    ensures
        s@ == prepare_selection_of(sel@) + b64_of(data@) + "\x1b\\"@,
{
    let mut s = prepare_selection(sel);
    let payload = base64_encode(data);
    s.append(payload.as_str());
    s.append("\x1b\\");
    s
}

// --- String helpers ---

/// Relies on `String::push`: appends the given character to the end of the
/// string.
#[verifier::external_body]
pub(crate) fn push_char(s: &mut String, c: char)
    ensures
        final(s)@ == old(s)@ + seq![c],
{
    s.push(c);
}

/// Trait for getting a `String` from `&str` and `String`.
pub trait GetString: View<V = Seq<char>> + Sized {
    /// Returns the same text as an owned `String`.
    fn get_string(self) -> (s: String)
        ensures
            s@ == self@,
    ;
}

impl GetString for &str {
    fn get_string(self) -> (s: String) {
        self.to_owned()
    }
}

impl GetString for String {
    fn get_string(self) -> (s: String) {
        self
    }
}

} // verus!
