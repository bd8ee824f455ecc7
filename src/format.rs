//! Format specifications and the layout rules that apply them to a value.

use vstd::prelude::*;
use crate::context::TypedValue;
use crate::text::{push_char, push_chars};

verus! {

/// Errors that a render can fail with.
#[derive(Debug)]
pub enum Error {
    /// The value lookup has no value under this name.
    VariableNameError(String),
    /// The value under this name has a kind that cannot be rendered.
    VariableTypeError(String),
}

/// The sign flag of a format specification.
#[derive(Clone, Copy, Debug, PartialEq, Eq, Structural)]
pub enum SignFlag {
    /// Always write the sign of a number.
    Plus,
    /// Accepted by the grammar; has no effect.
    Minus,
}

/// Sign of a numeric value.
#[derive(Clone, Copy, Debug, PartialEq, Eq, Structural)]
pub enum Sign {
    Positive,
    Negative,
    Zero,
}

impl Sign {
    pub open spec fn spec_char(self) -> char {
        match self {
            Sign::Negative => '-',
            _ => '+',
        }
    }

    /// The character that stands for the sign.
    pub fn to_char(self) -> (r: char)
        ensures
            r == self.spec_char(),
    {
        match self {
            Sign::Negative => '-',
            _ => '+',
        }
    }
}

impl SignFlag {
    /// The sign that this flag forces on a value whose sign is `val_sign`.
    pub open spec fn spec_sign_for_value(self, val_sign: Option<Sign>) -> Option<Sign> {
        match self {
            SignFlag::Plus => val_sign,
            SignFlag::Minus => None,
        }
    }

    pub fn get_sign_for_value(&self, val_sign: Option<Sign>) -> (r: Option<Sign>)
        ensures
            r == self.spec_sign_for_value(val_sign),
    {
        match self {
            SignFlag::Plus => val_sign,
            SignFlag::Minus => None,
        }
    }
}

/// Flags of a format specification.
#[derive(Clone, Copy, Debug, Default, PartialEq, Eq)]
pub struct Flags {
    pub sign: Option<SignFlag>,
    /// The zero flag: when set the layout is number aware.
    pub zero: Option<()>,
}

impl Flags {
    pub fn new(sign: Option<SignFlag>, zero: Option<()>) -> (r: Flags)
        ensures
            r.sign == sign,
            r.zero == zero,
    {
        Flags { sign, zero }
    }

    pub fn is_number_aware(&self) -> (r: bool)
        ensures
            r == self.zero is Some,
    {
        self.zero.is_some()
    }
}

/// Horizontal alignment of a value inside its field.
#[derive(Clone, Copy, Debug, PartialEq, Eq, Structural)]
pub enum Alignment {
    Left,
    Center,
    Right,
}

/// A fill character (space when absent) together with an alignment.
#[derive(Clone, Copy, Debug, PartialEq, Eq)]
pub struct Fill {
    pub fill_char: Option<char>,
    pub alignment: Alignment,
}

/// `n` copies of `c`.
pub open spec fn repeat(c: char, n: nat) -> Seq<char> {
    Seq::new(n, |_i: int| c)
}

impl Fill {
    pub fn new(fill_char: Option<char>, alignment: Alignment) -> (r: Fill)
        ensures
            r.fill_char == fill_char,
            r.alignment == alignment,
    {
        Fill { fill_char, alignment }
    }

    pub open spec fn spec_char(self) -> char {
        match self.fill_char {
            Some(c) => c,
            None => ' ',
        }
    }

    /// How much of a gap of `gap` columns goes before the value.
    pub open spec fn left_len(self, gap: nat) -> nat {
        match self.alignment {
            Alignment::Left => 0,
            Alignment::Center => gap / 2,
            Alignment::Right => gap,
        }
    }

    /// `body` placed in a field `gap` columns wider than it.
    pub open spec fn padded(self, body: Seq<char>, gap: nat) -> Seq<char> {
        repeat(self.spec_char(), self.left_len(gap)) + body + repeat(
            self.spec_char(),
            (gap - self.left_len(gap)) as nat,
        )
    }

    pub fn get_fill_char_or_default(&self) -> (r: char)
        ensures
            r == self.spec_char(),
    {
        match self.fill_char {
            Some(c) => c,
            None => ' ',
        }
    }

    /// Appends `n` fill characters; returns `n`.
    pub fn write_filler(&self, n: usize, out: &mut String) -> (r: usize)
        ensures
            r == n,
            final(out)@ == old(out)@ + repeat(self.spec_char(), n as nat),
    {
        let c = self.get_fill_char_or_default();
        let mut i: usize = 0;
        while i < n
            invariant
                i <= n,
                c == self.spec_char(),
                out@ == old(out)@ + repeat(c, i as nat),
            decreases n - i,
        {
            push_char(out, c);
            assert(repeat(c, (i + 1) as nat) == repeat(c, i as nat).push(c));
            i += 1;
        }
        n
    }

    /// Appends the fill that goes before a value of `len` columns in a
    /// field of `width` columns; returns how many columns it took.
    pub fn write_left_filler(&self, len: usize, width: usize, out: &mut String) -> (r: usize)
        requires
            len <= width,
        ensures
            r == self.left_len((width - len) as nat),
            final(out)@ == old(out)@ + repeat(self.spec_char(), r as nat),
    {
        match self.alignment {
            Alignment::Left => {
                assert(repeat(self.spec_char(), 0) =~= Seq::<char>::empty());
                assert(out@ + repeat(self.spec_char(), 0) =~= out@);
                0
            },
            Alignment::Center => self.write_filler((width - len) / 2, out),
            Alignment::Right => self.write_filler(width - len, out),
        }
    }

    /// Appends the fill that goes after the value, where `gap` columns of
    /// the field are left; returns how many columns it took.
    pub fn write_right_filler(&self, gap: usize, out: &mut String) -> (r: usize)
        ensures
            r == (if self.alignment == Alignment::Right { 0 } else { gap }),
            final(out)@ == old(out)@ + repeat(self.spec_char(), r as nat),
    {
        match self.alignment {
            Alignment::Right => {
                assert(out@ + repeat(self.spec_char(), 0) =~= out@);
                0
            },
            _ => self.write_filler(gap, out),
        }
    }
}

/// The fill used where a format specification gives none.
pub open spec fn default_fill() -> Fill {
    Fill { fill_char: Some(' '), alignment: Alignment::Left }
}

/// A parsed format specification.
#[derive(Clone, Copy, Debug, PartialEq, Eq)]
pub struct Format {
    pub fill: Option<Fill>,
    pub flags: Flags,
    pub width: Option<u32>,
    /// Parsed and kept, but not applied by the layout.
    pub precision: Option<u32>,
}

/// The `+` written before a positive or zero value, if `sign` asks for one.
pub open spec fn plus_prefix(sign: Option<Sign>) -> Seq<char> {
    match sign {
        Some(Sign::Positive) | Some(Sign::Zero) => seq!['+'],
        _ => Seq::empty(),
    }
}

/// `text` without its first character (a leading `-`).
pub open spec fn without_sign(text: Seq<char>) -> Seq<char> {
    if text.len() > 0 {
        text.subrange(1, text.len() as int)
    } else {
        text
    }
}

impl Format {
    pub fn new(fill: Option<Fill>, flags: Flags, width: Option<u32>, precision: Option<u32>) -> (r:
        Format)
        ensures
            r.fill == fill,
            r.flags == flags,
            r.width == width,
            r.precision == precision,
    {
        Format { fill, flags, width, precision }
    }

    /// The sign this format writes for a value whose own sign is `val_sign`.
    pub open spec fn forced_sign(self, val_sign: Option<Sign>) -> Option<Sign> {
        match self.flags.sign {
            Some(flag) => flag.spec_sign_for_value(val_sign),
            None => None,
        }
    }

    /// Whether the zero flag governs the layout of this value.
    pub open spec fn spec_number_aware(self, numeric: bool) -> bool {
        self.flags.zero is Some && numeric
    }

    pub open spec fn spec_fill(self, numeric: bool) -> Fill {
        if self.spec_number_aware(numeric) {
            Fill { fill_char: Some('0'), alignment: Alignment::Right }
        } else {
            match self.fill {
                Some(f) => f,
                None => default_fill(),
            }
        }
    }

    /// The text this format gives to a value whose default representation
    /// is `text`, which is numeric or not, and whose sign is `val_sign`.
    pub open spec fn layout(self, text: Seq<char>, numeric: bool, val_sign: Option<Sign>) -> Seq<
        char,
    > {
        let sign = self.forced_sign(val_sign);
        match self.width {
            Some(w) if text.len() < w => if self.spec_number_aware(numeric) {
                zero_padded(text, sign, w as nat)
            } else {
                aligned(self.spec_fill(numeric), text, sign, w as nat)
            },
            _ => signed_text(text, sign),
        }
    }

    pub fn get_fill(&self, numeric: bool) -> (r: Fill)
        ensures
            r == self.spec_fill(numeric),
    {
        if self.flags.is_number_aware() && numeric {
            Fill::new(Some('0'), Alignment::Right)
        } else {
            match self.fill {
                Some(f) => f,
                None => Fill::new(Some(' '), Alignment::Left),
            }
        }
    }

    /// Appends the sign that goes before the value and returns it; a
    /// negative sign goes before the value only in a number aware layout,
    /// as elsewhere it is already part of the value's text.
    pub fn write_sign(&self, sign: Sign, numeric: bool, out: &mut String) -> (r: Option<Sign>)
        ensures
            r == (if sign != Sign::Negative || self.spec_number_aware(numeric) {
                Some(sign)
            } else {
                None::<Sign>
            }),
            final(out)@ == old(out)@ + (match r {
                Some(s) => seq![s.spec_char()],
                None => Seq::empty(),
            }),
    {
        if sign != Sign::Negative || (self.flags.is_number_aware() && numeric) {
            push_char(out, sign.to_char());
            Some(sign)
        } else {
            assert(out@ + Seq::<char>::empty() =~= out@);
            None
        }
    }

    /// Appends to `out` the text this format gives to `val`.
    pub fn write_formatted(&self, val: &TypedValue, out: &mut String)
        ensures
            final(out)@ == old(out)@ + self.layout(val@.repr(), val@.is_numeric(), val@.sign()),
    {
        let text = val.string_repr();
        self.write_layout(&text, val.is_numeric(), val.sign(), out);
    }

    /// Appends to `out` the layout of a value with default representation
    /// `text`.
    pub fn write_layout(
        &self,
        text: &Vec<char>,
        numeric: bool,
        val_sign: Option<Sign>,
        out: &mut String,
    )
        ensures
            final(out)@ == old(out)@ + self.layout(text@, numeric, val_sign),
    {
        let sign = match self.flags.sign {
            Some(flag) => flag.get_sign_for_value(val_sign),
            None => None,
        };
        let len = text.len();
        match self.width {
            Some(w) if len < w as usize => {
                if self.flags.is_number_aware() && numeric {
                    write_zero_padded(text, sign, w as usize, out);
                } else {
                    let fill = self.get_fill(numeric);
                    write_aligned(fill, text, sign, w as usize, out);
                }
            },
            _ => {
                write_signed(text, sign, out);
            },
        }
    }
}

/// The layout of `text` with sign `sign` where no padding applies.
pub open spec fn signed_text(text: Seq<char>, sign: Option<Sign>) -> Seq<char> {
    plus_prefix(sign) + text
}

/// The number aware layout of `text` in a field of `w` columns.
pub open spec fn zero_padded(text: Seq<char>, sign: Option<Sign>, w: nat) -> Seq<char> {
    if sign == Some(Sign::Negative) {
        seq!['-'] + repeat('0', (w - text.len()) as nat) + without_sign(text)
    } else {
        plus_prefix(sign) + repeat('0', (w - plus_prefix(sign).len() - text.len()) as nat) + text
    }
}

/// The layout of `text` in a field of `w` columns, filled and aligned by
/// `fill`.
pub open spec fn aligned(fill: Fill, text: Seq<char>, sign: Option<Sign>, w: nat) -> Seq<char> {
    fill.padded(plus_prefix(sign) + text, (w - plus_prefix(sign).len() - text.len()) as nat)
}

fn write_plus(sign: Option<Sign>, out: &mut String) -> (cols: usize)
    ensures
        cols == plus_prefix(sign).len(),
        final(out)@ == old(out)@ + plus_prefix(sign),
{
    match sign {
        Some(Sign::Positive) | Some(Sign::Zero) => {
            push_char(out, '+');
            1
        },
        _ => {
            assert(out@ + Seq::<char>::empty() =~= out@);
            0
        },
    }
}

fn write_signed(text: &Vec<char>, sign: Option<Sign>, out: &mut String)
    ensures
        final(out)@ == old(out)@ + signed_text(text@, sign),
{
    write_plus(sign, out);
    push_chars(out, text, 0, text.len());
    assert(text@.subrange(0, text@.len() as int) =~= text@);
    assert(old(out)@ + signed_text(text@, sign) =~= out@);
}

fn write_zero_padded(text: &Vec<char>, sign: Option<Sign>, width: usize, out: &mut String)
    requires
        text@.len() < width,
    ensures
        final(out)@ == old(out)@ + zero_padded(text@, sign, width as nat),
{
    let zero = Fill::new(Some('0'), Alignment::Right);
    let len = text.len();
    if sign == Some(Sign::Negative) {
        push_char(out, '-');
        zero.write_filler(width - len, out);
        if len > 0 {
            push_chars(out, text, 1, len);
        }
        assert(old(out)@ + zero_padded(text@, sign, width as nat) =~= out@);
    } else {
        let cols = write_plus(sign, out);
        zero.write_filler(width - cols - len, out);
        push_chars(out, text, 0, len);
        assert(text@.subrange(0, len as int) =~= text@);
        assert(old(out)@ + zero_padded(text@, sign, width as nat) =~= out@);
    }
}

fn write_aligned(fill: Fill, text: &Vec<char>, sign: Option<Sign>, width: usize, out: &mut String)
    requires
        text@.len() < width,
    ensures
        final(out)@ == old(out)@ + aligned(fill, text@, sign, width as nat),
{
    let len = text.len();
    let cols: usize = match sign {
        Some(Sign::Positive) | Some(Sign::Zero) => 1,
        _ => 0,
    };
    let used = fill.write_left_filler(cols + len, width, out);
    write_plus(sign, out);
    push_chars(out, text, 0, len);
    assert(text@.subrange(0, len as int) =~= text@);
    fill.write_right_filler(width - cols - len - used, out);
    assert(old(out)@ + aligned(fill, text@, sign, width as nat) =~= out@);
}

/// Width overflow: a value whose text is at least as wide as the field, or
/// with no width given, is written whole, after the `+` that the sign flag
/// forces, with no fill.
pub proof fn lemma_width_overflow(f: Format, text: Seq<char>, numeric: bool, val_sign: Option<Sign>)
    requires
        f.width is None || text.len() >= f.width->0,
    ensures
        f.layout(text, numeric, val_sign) == plus_prefix(f.forced_sign(val_sign)) + text,
{
}

} // verus!
