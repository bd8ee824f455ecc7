//! The template grammar and the compiler that turns a template into tokens.

use vstd::prelude::*;
use crate::context::Context;
use crate::format::{Alignment, Error as FormatError, Fill, Flags, Format, SignFlag};
use crate::text::{chars_of, string_of};
use crate::token::{lemma_render_concat, render, Token, TokenModel};
use crate::xid::{is_xid_continue, is_xid_start, xid_continue, xid_start};

verus! {

/// A template that does not follow the grammar.
#[derive(Debug, PartialEq, Eq)]
pub enum CompileError {
    /// No token can start at this character offset.
    ParseError(usize),
}

pub open spec fn is_ident_continue(c: char) -> bool {
    c == '_' || xid_continue(c)
}

/// The end of the run of identifier characters that starts at `j`.
pub open spec fn ident_end(s: Seq<char>, j: int) -> int
    decreases s.len() - j,
{
    if 0 <= j < s.len() && is_ident_continue(s[j]) {
        ident_end(s, j + 1)
    } else {
        j
    }
}

/// The end of the run of characters other than `{` that starts at `j`.
pub open spec fn literal_end(s: Seq<char>, j: int) -> int
    decreases s.len() - j,
{
    if 0 <= j < s.len() && s[j] != '{' {
        literal_end(s, j + 1)
    } else {
        j
    }
}

pub open spec fn is_digit(c: char) -> bool {
    '0' <= c <= '9'
}

/// The end of the run of decimal digits that starts at `j`.
pub open spec fn digits_end(s: Seq<char>, j: int) -> int
    decreases s.len() - j,
{
    if 0 <= j < s.len() && is_digit(s[j]) {
        digits_end(s, j + 1)
    } else {
        j
    }
}

/// The number that the digits `s[i..j]` write.
pub open spec fn digits_value(s: Seq<char>, i: int, j: int) -> nat
    decreases j - i,
{
    if j <= i {
        0
    } else {
        digits_value(s, i, j - 1) * 10 + (s[j - 1] as nat - '0' as nat) as nat
    }
}

/// An unsigned 32-bit decimal at `i` and where it ends; none where no digit
/// stands at `i` or the number does not fit.
pub open spec fn parse_u32(s: Seq<char>, i: int) -> Option<(u32, int)> {
    let e = digits_end(s, i);
    if e == i || digits_value(s, i, e) > u32::MAX {
        None
    } else {
        Some((digits_value(s, i, e) as u32, e))
    }
}

pub open spec fn alignment_of(c: char) -> Option<Alignment> {
    if c == '<' {
        Some(Alignment::Left)
    } else if c == '^' {
        Some(Alignment::Center)
    } else if c == '>' {
        Some(Alignment::Right)
    } else {
        None
    }
}

/// An optional fill: a character then an alignment, or an alignment alone.
pub open spec fn parse_fill(s: Seq<char>, i: int) -> (Option<Fill>, int) {
    if 0 <= i && i + 1 < s.len() && alignment_of(s[i + 1]) is Some {
        (Some(Fill { fill_char: Some(s[i]), alignment: alignment_of(s[i + 1])->0 }), i + 2)
    } else if 0 <= i < s.len() && alignment_of(s[i]) is Some {
        (Some(Fill { fill_char: None, alignment: alignment_of(s[i])->0 }), i + 1)
    } else {
        (None, i)
    }
}

/// An optional sign flag followed by an optional zero flag.
pub open spec fn parse_flags(s: Seq<char>, i: int) -> (Flags, int) {
    let (sign, j) = if 0 <= i < s.len() && s[i] == '+' {
        (Some(SignFlag::Plus), i + 1)
    } else if 0 <= i < s.len() && s[i] == '-' {
        (Some(SignFlag::Minus), i + 1)
    } else {
        (None, i)
    };
    if 0 <= j < s.len() && s[j] == '0' {
        (Flags { sign, zero: Some(()) }, j + 1)
    } else {
        (Flags { sign, zero: None }, j)
    }
}

pub open spec fn parse_width(s: Seq<char>, i: int) -> (Option<u32>, int) {
    match parse_u32(s, i) {
        Some((v, e)) => (Some(v), e),
        None => (None, i),
    }
}

/// An optional `.` followed by a number.
pub open spec fn parse_precision(s: Seq<char>, i: int) -> (Option<u32>, int) {
    if 0 <= i < s.len() && s[i] == '.' {
        match parse_u32(s, i + 1) {
            Some((v, e)) => (Some(v), e),
            None => (None, i),
        }
    } else {
        (None, i)
    }
}

/// A format specification introduced by `:` at `i`.
pub open spec fn parse_format(s: Seq<char>, i: int) -> Option<(Format, int)> {
    if 0 <= i < s.len() && s[i] == ':' {
        let (fill, a) = parse_fill(s, i + 1);
        let (flags, b) = parse_flags(s, a);
        let (width, c) = parse_width(s, b);
        let (precision, d) = parse_precision(s, c);
        Some((Format { fill, flags, width, precision }, d))
    } else {
        None
    }
}

/// A placeholder `{name}` or `{name:spec}` at `i`.
pub open spec fn parse_placeholder(s: Seq<char>, i: int) -> Option<(TokenModel, int)> {
    if 0 <= i && i + 1 < s.len() && s[i] == '{' && xid_start(s[i + 1]) {
        let e = ident_end(s, i + 2);
        let (format, j) = match parse_format(s, e) {
            Some((f, j)) => (Some(f), j),
            None => (None, e),
        };
        if 0 <= j < s.len() && s[j] == '}' {
            Some((TokenModel::Variable(s.subrange(i + 1, e), format), j + 1))
        } else {
            None
        }
    } else {
        None
    }
}

/// The token at `i` and where it ends: the escape `{{`, a placeholder, or
/// the longest run of text without `{`.
pub open spec fn parse_token(s: Seq<char>, i: int) -> Option<(TokenModel, int)> {
    if 0 <= i && i + 1 < s.len() && s[i] == '{' && s[i + 1] == '{' {
        Some((TokenModel::Literal(s.subrange(i, i + 2)), i + 2))
    } else if parse_placeholder(s, i) is Some {
        parse_placeholder(s, i)
    } else if 0 <= i < s.len() && s[i] != '{' {
        Some((TokenModel::Literal(s.subrange(i, literal_end(s, i))), literal_end(s, i)))
    } else {
        None
    }
}

/// The tokens of `s[i..]`, or the offset at which no token can start.
pub open spec fn parse_from(s: Seq<char>, i: int) -> Result<Seq<TokenModel>, int>
    decreases s.len() - i,
{
    if i >= s.len() {
        Ok(Seq::empty())
    } else {
        match parse_token(s, i) {
            None => Err(i),
            Some((t, j)) => if i < j <= s.len() {
                match parse_from(s, j) {
                    Ok(ts) => Ok(seq![t] + ts),
                    Err(p) => Err(p),
                }
            } else {
                Err(i)
            },
        }
    }
}

/// The tokens of a template, or the offset where it breaks the grammar.
pub open spec fn parse(s: Seq<char>) -> Result<Seq<TokenModel>, int> {
    parse_from(s, 0)
}

/// A maximal identifier: an XID_Start character, then identifier characters.
pub open spec fn is_identifier(n: Seq<char>) -> bool {
    &&& n.len() > 0
    &&& xid_start(n[0])
    &&& forall|m: int| 1 <= m < n.len() ==> is_ident_continue(#[trigger] n[m])
}

/// What a compiled token can hold: a literal is the escape `{{` or holds no
/// `{`, and a placeholder's name is an identifier.
pub open spec fn token_well_formed(t: TokenModel) -> bool {
    match t {
        TokenModel::Literal(x) => x == seq!['{', '{'] || !x.contains('{'),
        TokenModel::Variable(n, _) => is_identifier(n),
    }
}

proof fn lemma_literal_end(s: Seq<char>, i: int)
    requires
        0 <= i <= s.len(),
    ensures
        i <= literal_end(s, i) <= s.len(),
        forall|m: int| i <= m < literal_end(s, i) ==> s[m] != '{',
    decreases s.len() - i,
{
    if i < s.len() && s[i] != '{' {
        lemma_literal_end(s, i + 1);
    }
}

proof fn lemma_ident_end(s: Seq<char>, i: int)
    requires
        0 <= i <= s.len(),
    ensures
        i <= ident_end(s, i) <= s.len(),
        forall|m: int| i <= m < ident_end(s, i) ==> is_ident_continue(s[m]),
        ident_end(s, i) < s.len() ==> !is_ident_continue(s[ident_end(s, i)]),
    decreases s.len() - i,
{
    if i < s.len() && is_ident_continue(s[i]) {
        lemma_ident_end(s, i + 1);
    }
}

proof fn lemma_token_well_formed(s: Seq<char>, i: int)
    requires
        0 <= i < s.len(),
        parse_token(s, i) is Some,
    ensures
        ({
            let (t, _j) = parse_token(s, i)->0;
            token_well_formed(t)
        }),
{
    if i + 1 < s.len() && s[i] == '{' && s[i + 1] == '{' {
        assert(s.subrange(i, i + 2) =~= seq!['{', '{']);
    } else if parse_placeholder(s, i) is Some {
        lemma_ident_end(s, i + 2);
        let n = s.subrange(i + 1, ident_end(s, i + 2));
        assert(n[0] == s[i + 1]);
        assert forall|m: int| 1 <= m < n.len() implies is_ident_continue(#[trigger] n[m]) by {
            assert(n[m] == s[i + 1 + m]);
        }
    } else {
        lemma_literal_end(s, i);
        let x = s.subrange(i, literal_end(s, i));
        assert forall|m: int| 0 <= m < x.len() implies x[m] != '{' by {
            assert(x[m] == s[i + m]);
        }
    }
}

proof fn lemma_parse_from_well_formed(s: Seq<char>, i: int)
    requires
        0 <= i,
        parse_from(s, i) is Ok,
    ensures
        forall|k: int|
            0 <= k < parse_from(s, i)->Ok_0.len() ==> token_well_formed(
                #[trigger] parse_from(s, i)->Ok_0[k],
            ),
    decreases s.len() - i,
{
    if i < s.len() {
        let (t, j) = parse_token(s, i)->0;
        lemma_token_well_formed(s, i);
        lemma_parse_from_well_formed(s, j);
        let ts = parse_from(s, j)->Ok_0;
        assert forall|k: int| 0 <= k < (seq![t] + ts).len() implies token_well_formed(
            #[trigger] (seq![t] + ts)[k],
        ) by {
            if k > 0 {
                assert((seq![t] + ts)[k] == ts[k - 1]);
            }
        }
    }
}

/// Escapes: in a compiled template, a literal token that holds `{` is the
/// two-character escape `{{` itself, one token for each escape.
pub proof fn lemma_escape(s: Seq<char>)
    requires
        parse(s) is Ok,
    ensures
        forall|k: int|
            0 <= k < parse(s)->Ok_0.len() && (#[trigger] parse(s)->Ok_0[k]) is Literal
                && parse(s)->Ok_0[k]->Literal_0.contains('{') ==> parse(s)->Ok_0[k]->Literal_0
                == seq!['{', '{'],
{
    lemma_parse_from_well_formed(s, 0);
}

/// Identifiers: the name of each placeholder of a compiled template is an
/// identifier (non-ASCII ones included).
pub proof fn lemma_identifier(s: Seq<char>)
    requires
        parse(s) is Ok,
    ensures
        forall|k: int|
            0 <= k < parse(s)->Ok_0.len() && (#[trigger] parse(s)->Ok_0[k]) is Variable
                ==> is_identifier(parse(s)->Ok_0[k]->Variable_0),
{
    lemma_parse_from_well_formed(s, 0);
}

/// Identifiers: a placeholder's name is exactly the text between its `{`
/// and the `:` or `}` that follows the name, and that text is a maximal
/// identifier.
pub proof fn lemma_placeholder_name(s: Seq<char>, i: int)
    requires
        parse_placeholder(s, i) is Some,
    ensures
        ({
            let (t, j) = parse_placeholder(s, i)->0;
            let n = t->Variable_0;
            &&& t is Variable
            &&& s[i] == '{'
            &&& n == s.subrange(i + 1, i + 1 + n.len())
            &&& is_identifier(n)
            &&& i + 1 + n.len() < s.len()
            &&& (s[i + 1 + n.len()] == ':' || s[i + 1 + n.len()] == '}')
            &&& s[j - 1] == '}'
        }),
{
    lemma_ident_end(s, i + 2);
    let n = s.subrange(i + 1, ident_end(s, i + 2));
    assert(n[0] == s[i + 1]);
    assert forall|m: int| 1 <= m < n.len() implies is_ident_continue(#[trigger] n[m]) by {
        assert(n[m] == s[i + 1 + m]);
    }
}

/// Round trip: a template that compiles to literal tokens only renders to
/// itself, under any lookup.
pub proof fn lemma_round_trip<C: Context>(s: Seq<char>, ctx: &C)
    requires
        parse(s) is Ok,
        forall|k: int|
            0 <= k < parse(s)->Ok_0.len() ==> (#[trigger] parse(s)->Ok_0[k]) is Literal,
    ensures
        render(parse(s)->Ok_0, ctx) == (s, None::<Seq<char>>),
{
    lemma_round_trip_from(s, 0, ctx);
    assert(s.subrange(0, s.len() as int) =~= s);
}

proof fn lemma_round_trip_from<C: Context>(s: Seq<char>, i: int, ctx: &C)
    requires
        0 <= i <= s.len(),
        parse_from(s, i) is Ok,
        forall|k: int|
            0 <= k < parse_from(s, i)->Ok_0.len() ==> (#[trigger] parse_from(s, i)->Ok_0[k]) is Literal,
    ensures
        render(parse_from(s, i)->Ok_0, ctx) == (s.subrange(i, s.len() as int), None::<Seq<char>>),
    decreases s.len() - i,
{
    if i >= s.len() {
        assert(s.subrange(i, s.len() as int) =~= Seq::<char>::empty());
    } else {
        let (t, j) = parse_token(s, i)->0;
        let ts = parse_from(s, j)->Ok_0;
        let all = seq![t] + ts;
        assert(parse_from(s, i) == Ok::<Seq<TokenModel>, int>(all));
        assert(all[0] == t);
        assert(parse_from(s, i)->Ok_0[0] is Literal);
        assert forall|k: int| 0 <= k < ts.len() implies (#[trigger] ts[k]) is Literal by {
            assert(all[k + 1] == ts[k]);
            assert(parse_from(s, i)->Ok_0[k + 1] is Literal);
        }
        lemma_round_trip_from(s, j, ctx);
        assert(all.drop_first() =~= ts);
        if i + 1 < s.len() && s[i] == '{' && s[i + 1] == '{' {
        } else if parse_placeholder(s, i) is Some {
            let (p, _e) = parse_placeholder(s, i)->0;
            assert(p is Variable);
        } else {
        }
        assert(t->Literal_0 == s.subrange(i, j));
        assert(s.subrange(i, j) + s.subrange(j, s.len() as int) =~= s.subrange(i, s.len() as int));
    }
}

fn scan_ident(s: &Vec<char>, j: usize) -> (e: usize)
    requires
        j <= s@.len(),
    ensures
        e == ident_end(s@, j as int),
        j <= e <= s@.len(),
{
    let mut k = j;
    while k < s.len() && (s[k] == '_' || is_xid_continue(s[k]))
        invariant
            j <= k <= s@.len(),
            ident_end(s@, j as int) == ident_end(s@, k as int),
        decreases s@.len() - k,
    {
        k += 1;
    }
    k
}

fn scan_literal(s: &Vec<char>, j: usize) -> (e: usize)
    requires
        j <= s@.len(),
    ensures
        e == literal_end(s@, j as int),
        j <= e <= s@.len(),
{
    let mut k = j;
    while k < s.len() && s[k] != '{'
        invariant
            j <= k <= s@.len(),
            literal_end(s@, j as int) == literal_end(s@, k as int),
        decreases s@.len() - k,
    {
        k += 1;
    }
    k
}

fn scan_digits(s: &Vec<char>, j: usize) -> (e: usize)
    requires
        j <= s@.len(),
    ensures
        e == digits_end(s@, j as int),
        j <= e <= s@.len(),
        forall|k: int| j <= k < e ==> is_digit(#[trigger] s@[k]),
{
    let mut k = j;
    while k < s.len() && '0' <= s[k] && s[k] <= '9'
        invariant
            j <= k <= s@.len(),
            digits_end(s@, j as int) == digits_end(s@, k as int),
            forall|m: int| j <= m < k ==> is_digit(#[trigger] s@[m]),
        decreases s@.len() - k,
    {
        k += 1;
    }
    k
}

fn parse_u32_at(s: &Vec<char>, i: usize) -> (r: Option<(u32, usize)>)
    requires
        i <= s@.len(),
    ensures
        match r {
            Some((v, e)) => parse_u32(s@, i as int) == Some((v, e as int)) && i <= e <= s@.len(),
            None => parse_u32(s@, i as int) is None,
        },
{
    let e = scan_digits(s, i);
    if e == i {
        return None;
    }
    let mut value: u64 = 0;
    let mut over = false;
    let mut k = i;
    while k < e
        invariant
            i <= k <= e <= s@.len(),
            forall|m: int| i <= m < e ==> is_digit(#[trigger] s@[m]),
            over ==> digits_value(s@, i as int, k as int) > u32::MAX,
            !over ==> value == digits_value(s@, i as int, k as int) && value <= u32::MAX,
        decreases e - k,
    {
        let ghost before = digits_value(s@, i as int, k as int);
        let d = (s[k] as u32 - 48) as u64;
        assert(digits_value(s@, i as int, k + 1) == before * 10 + d);
        if !over {
            let next = value * 10 + d;
            if next > 4294967295u64 {
                over = true;
            } else {
                value = next;
            }
        } else {
            assert(before * 10 + d >= before) by (nonlinear_arith)
                requires
                    before >= 0,
                    d >= 0,
            ;
        }
        k += 1;
    }
    if over {
        None
    } else {
        Some((value as u32, e))
    }
}

fn alignment_of_char(c: char) -> (r: Option<Alignment>)
    ensures
        r == alignment_of(c),
{
    if c == '<' {
        Some(Alignment::Left)
    } else if c == '^' {
        Some(Alignment::Center)
    } else if c == '>' {
        Some(Alignment::Right)
    } else {
        None
    }
}

fn parse_fill_at(s: &Vec<char>, i: usize) -> (r: (Option<Fill>, usize))
    requires
        i <= s@.len(),
    ensures
        (r.0, r.1 as int) == parse_fill(s@, i as int),
        i <= r.1 <= s@.len(),
{
    if i < s.len() && i + 1 < s.len() {
        if let Some(a) = alignment_of_char(s[i + 1]) {
            return (Some(Fill::new(Some(s[i]), a)), i + 2);
        }
    }
    if i < s.len() {
        if let Some(a) = alignment_of_char(s[i]) {
            return (Some(Fill::new(None, a)), i + 1);
        }
    }
    (None, i)
}

fn parse_flags_at(s: &Vec<char>, i: usize) -> (r: (Flags, usize))
    requires
        i <= s@.len(),
    ensures
        (r.0, r.1 as int) == parse_flags(s@, i as int),
        i <= r.1 <= s@.len(),
{
    let (sign, j) = if i < s.len() && s[i] == '+' {
        (Some(SignFlag::Plus), i + 1)
    } else if i < s.len() && s[i] == '-' {
        (Some(SignFlag::Minus), i + 1)
    } else {
        (None, i)
    };
    if j < s.len() && s[j] == '0' {
        (Flags::new(sign, Some(())), j + 1)
    } else {
        (Flags::new(sign, None), j)
    }
}

fn parse_format_at(s: &Vec<char>, i: usize) -> (r: Option<(Format, usize)>)
    requires
        i <= s@.len(),
    ensures
        match r {
            Some((f, j)) => parse_format(s@, i as int) == Some((f, j as int)) && i < j <= s@.len(),
            None => parse_format(s@, i as int) is None,
        },
{
    if i < s.len() && s[i] == ':' {
        let (fill, a) = parse_fill_at(s, i + 1);
        let (flags, b) = parse_flags_at(s, a);
        let (width, c) = match parse_u32_at(s, b) {
            Some((v, e)) => (Some(v), e),
            None => (None, b),
        };
        let (precision, d) = if c < s.len() && s[c] == '.' {
            match parse_u32_at(s, c + 1) {
                Some((v, e)) => (Some(v), e),
                None => (None, c),
            }
        } else {
            (None, c)
        };
        Some((Format::new(fill, flags, width, precision), d))
    } else {
        None
    }
}

fn parse_placeholder_at(s: &Vec<char>, i: usize) -> (r: Option<(Token, usize)>)
    requires
        i <= s@.len(),
    ensures
        match r {
            Some((t, j)) => parse_placeholder(s@, i as int) == Some((t@, j as int)) && i < j
                <= s@.len(),
            None => parse_placeholder(s@, i as int) is None,
        },
{
    if i < s.len() && i + 1 < s.len() && s[i] == '{' && is_xid_start(s[i + 1]) {
        let e = scan_ident(s, i + 2);
        let (format, j) = match parse_format_at(s, e) {
            Some((f, j)) => (Some(f), j),
            None => (None, e),
        };
        if j < s.len() && s[j] == '}' {
            Some((Token::Variable(string_of(s, i + 1, e), format), j + 1))
        } else {
            None
        }
    } else {
        None
    }
}

fn parse_token_at(s: &Vec<char>, i: usize) -> (r: Option<(Token, usize)>)
    requires
        i < s@.len(),
    ensures
        match r {
            Some((t, j)) => parse_token(s@, i as int) == Some((t@, j as int)) && i < j
                <= s@.len(),
            None => parse_token(s@, i as int) is None,
        },
{
    if s.len() - i > 1 && s[i] == '{' && s[i + 1] == '{' {
        return Some((Token::Literal(string_of(s, i, i + 2)), i + 2));
    }
    if let Some(p) = parse_placeholder_at(s, i) {
        return Some(p);
    }
    if s[i] != '{' {
        let e = scan_literal(s, i + 1);
        assert(literal_end(s@, i as int) == literal_end(s@, i + 1));
        return Some((Token::Literal(string_of(s, i, e)), e));
    }
    None
}

/// A template compiled into tokens, which it renders in order.
#[derive(Debug)]
pub struct CompiledFormat {
    ast: Vec<Token>,
}

impl View for CompiledFormat {
    type V = Seq<TokenModel>;

    closed spec fn view(&self) -> Seq<TokenModel> {
        self.ast@.map_values(|t: Token| t@)
    }
}

impl CompiledFormat {
    /// Appends the rendering of this template under `context` to `out`.
    /// On a missing name it stops there: the text of the tokens before it
    /// stays written, and the error names what was missing.
    pub fn format<C: Context>(&self, out: &mut String, context: &C) -> (r: Result<(), FormatError>)
        ensures
            final(out)@ == old(out)@ + render(self@, context).0,
            match render(self@, context).1 {
                None => r is Ok,
                Some(name) => r is Err && r->Err_0 is VariableNameError
                    && r->Err_0->VariableNameError_0@ == name,
            },
    {
        let ghost ts = self@;
        let mut k: usize = 0;
        assert(ts.take(0) =~= Seq::<TokenModel>::empty());
        assert(old(out)@ + Seq::<char>::empty() =~= old(out)@);
        while k < self.ast.len()
            invariant
                k <= self.ast@.len(),
                ts == self@,
                ts.len() == self.ast@.len(),
                forall|m: int| 0 <= m < ts.len() ==> ts[m] == (#[trigger] self.ast@[m])@,
                out@ == old(out)@ + render(ts.take(k as int), context).0,
                render(ts.take(k as int), context).1 is None,
            decreases self.ast@.len() - k,
        {
            let ghost before = out@;
            let res = self.ast[k].write_token(out, context);
            proof {
                let t = ts[k as int];
                assert(ts.take(k + 1) =~= ts.take(k as int) + seq![t]);
                lemma_render_concat(ts.take(k as int), seq![t], context);
                assert(seq![t].drop_first() =~= Seq::<TokenModel>::empty());
                assert(seq![t][0] == t);
                assert(render(Seq::<TokenModel>::empty(), context).1 is None);
                assert(render(Seq::<TokenModel>::empty(), context).0 =~= Seq::<char>::empty());
                assert(ts =~= ts.take(k + 1) + ts.skip(k + 1));
                lemma_render_concat(ts.take(k + 1), ts.skip(k + 1), context);
                match crate::token::token_output(t, context) {
                    Ok(s) => {
                        assert(s + Seq::<char>::empty() =~= s);
                        assert(out@ =~= old(out)@ + render(ts.take(k + 1), context).0);
                    },
                    Err(_) => {
                        assert(render(ts.take(k as int), context).0 + Seq::<char>::empty()
                            =~= render(ts.take(k as int), context).0);
                    },
                }
            }
            if res.is_err() {
                return res;
            }
            k += 1;
        }
        assert(ts.take(k as int) =~= ts);
        Ok(())
    }

    /// The rendering of this template under `context`, or the first name
    /// that `context` lacks.
    pub fn format_str<C: Context>(&self, context: &C) -> (r: Result<String, FormatError>)
        ensures
            match render(self@, context).1 {
                None => r is Ok && r->Ok_0@ == render(self@, context).0,
                Some(name) => r is Err && r->Err_0 is VariableNameError
                    && r->Err_0->VariableNameError_0@ == name,
            },
    {
        let mut formatted = String::new();
        match self.format(&mut formatted, context) {
            Ok(()) => {
                assert(Seq::<char>::empty() + render(self@, context).0 =~= render(self@, context).0);
                Ok(formatted)
            },
            Err(e) => Err(e),
        }
    }

    /// The tokens of this template.
    pub fn into_ast(self) -> (r: Vec<Token>)
        ensures
            r@.map_values(|t: Token| t@) == self@,
    {
        self.ast
    }
}

/// Compiles a template into tokens.
pub fn compile(format_str: &str) -> (r: Result<CompiledFormat, CompileError>)
    ensures
        match parse(format_str@) {
            Ok(ts) => r is Ok && r->Ok_0@ == ts,
            Err(p) => r is Err && r->Err_0 == CompileError::ParseError(p as usize),
        },
{
    let s = chars_of(format_str);
    let mut ast: Vec<Token> = Vec::new();
    let mut i: usize = 0;
    while i < s.len()
        invariant
            i <= s@.len(),
            s@ == format_str@,
            parse(s@) == (match parse_from(s@, i as int) {
                Ok(ts) => Ok(ast@.map_values(|t: Token| t@) + ts),
                Err(p) => Err(p),
            }),
        decreases s@.len() - i,
    {
        match parse_token_at(&s, i) {
            None => {
                return Err(CompileError::ParseError(i));
            },
            Some((t, j)) => {
                let ghost before = ast@.map_values(|t: Token| t@);
                let ghost tm = t@;
                ast.push(t);
                proof {
                    assert(ast@.map_values(|t: Token| t@) =~= before.push(tm));
                    match parse_from(s@, j as int) {
                        Ok(ts) => {
                            assert(before + (seq![tm] + ts) =~= before.push(tm) + ts);
                        },
                        Err(_) => {},
                    }
                }
                i = j;
            },
        }
    }
    proof {
        assert(ast@.map_values(|t: Token| t@) + Seq::<TokenModel>::empty() =~= ast@.map_values(
            |t: Token| t@,
        ));
    }
    Ok(CompiledFormat { ast })
}

} // verus!
