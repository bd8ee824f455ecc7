//! Typed values and the lookups that resolve placeholder names to them.

use vstd::prelude::*;
use crate::format::{Error as FormatError, Sign};
use crate::text::chars_of;

verus! {

/// A value rendered through its own `Debug` or `Display` text, which the
/// caller produced.
#[derive(Clone, Debug, PartialEq, Eq)]
pub enum DynPointer {
    Debug(String),
    Display(String),
}

/// A value together with its kind. A floating-point value is carried as
/// its canonical text (shortest round-trip decimal, `inf`, `-inf`, `NaN`).
#[derive(Clone, Debug, PartialEq, Eq)]
pub enum TypedValue {
    Str(String),
    Int(isize),
    Int64(i64),
    Int32(i32),
    Int16(i16),
    Int8(i8),
    Uint(usize),
    Uint64(u64),
    Uint32(u32),
    Uint16(u16),
    Uint8(u8),
    Float32(String),
    Float64(String),
    Bool(bool),
    Dyn(DynPointer),
}

/// The mathematical model of a [`TypedValue`].
pub enum ValueModel {
    Str(Seq<char>),
    Int(isize),
    Int64(i64),
    Int32(i32),
    Int16(i16),
    Int8(i8),
    Uint(usize),
    Uint64(u64),
    Uint32(u32),
    Uint16(u16),
    Uint8(u8),
    Float32(Seq<char>),
    Float64(Seq<char>),
    Bool(bool),
    Debug(Seq<char>),
    Display(Seq<char>),
}

pub open spec fn digit_char(d: nat) -> char {
    ((d % 10) as u8 + 48u8) as char
}

/// Decimal digits of `n`, most significant first, without leading zeros.
pub open spec fn digits(n: nat) -> Seq<char>
    decreases n,
{
    if n < 10 {
        seq![digit_char(n)]
    } else {
        digits(n / 10).push(digit_char(n % 10))
    }
}

/// Canonical decimal text of an integer.
pub open spec fn int_text(i: int) -> Seq<char> {
    if i < 0 {
        seq!['-'] + digits((-i) as nat)
    } else {
        digits(i as nat)
    }
}

pub open spec fn sign_of_int(i: int) -> Sign {
    if i > 0 {
        Sign::Positive
    } else if i == 0 {
        Sign::Zero
    } else {
        Sign::Negative
    }
}

/// Sign of a float given by its canonical text: none for infinities and
/// NaN, negative where the text starts with `-`.
pub open spec fn sign_of_float(t: Seq<char>) -> Option<Sign> {
    if t == seq!['i', 'n', 'f'] || t == seq!['-', 'i', 'n', 'f'] || t == seq!['N', 'a', 'N'] {
        None
    } else if t.len() > 0 && t[0] == '-' {
        Some(Sign::Negative)
    } else {
        Some(Sign::Positive)
    }
}

pub open spec fn bool_text(b: bool) -> Seq<char> {
    if b {
        seq!['t', 'r', 'u', 'e']
    } else {
        seq!['f', 'a', 'l', 's', 'e']
    }
}

impl ValueModel {
    /// The default string representation.
    pub open spec fn repr(self) -> Seq<char> {
        match self {
            ValueModel::Str(s) => s,
            ValueModel::Int(n) => int_text(n as int),
            ValueModel::Int64(n) => int_text(n as int),
            ValueModel::Int32(n) => int_text(n as int),
            ValueModel::Int16(n) => int_text(n as int),
            ValueModel::Int8(n) => int_text(n as int),
            ValueModel::Uint(n) => int_text(n as int),
            ValueModel::Uint64(n) => int_text(n as int),
            ValueModel::Uint32(n) => int_text(n as int),
            ValueModel::Uint16(n) => int_text(n as int),
            ValueModel::Uint8(n) => int_text(n as int),
            ValueModel::Float32(t) => t,
            ValueModel::Float64(t) => t,
            ValueModel::Bool(b) => bool_text(b),
            ValueModel::Debug(t) => t,
            ValueModel::Display(t) => t,
        }
    }

    pub open spec fn is_numeric(self) -> bool {
        !(self is Str || self is Bool || self is Debug || self is Display)
    }

    /// The sign of a numeric value; none for other values.
    pub open spec fn sign(self) -> Option<Sign> {
        match self {
            ValueModel::Int(n) => Some(sign_of_int(n as int)),
            ValueModel::Int64(n) => Some(sign_of_int(n as int)),
            ValueModel::Int32(n) => Some(sign_of_int(n as int)),
            ValueModel::Int16(n) => Some(sign_of_int(n as int)),
            ValueModel::Int8(n) => Some(sign_of_int(n as int)),
            ValueModel::Uint(n) => Some(sign_of_int(n as int)),
            ValueModel::Uint64(n) => Some(sign_of_int(n as int)),
            ValueModel::Uint32(n) => Some(sign_of_int(n as int)),
            ValueModel::Uint16(n) => Some(sign_of_int(n as int)),
            ValueModel::Uint8(n) => Some(sign_of_int(n as int)),
            ValueModel::Float32(t) => sign_of_float(t),
            ValueModel::Float64(t) => sign_of_float(t),
            _ => None,
        }
    }
}

impl View for TypedValue {
    type V = ValueModel;

    open spec fn view(&self) -> ValueModel {
        match self {
            TypedValue::Str(s) => ValueModel::Str(s@),
            TypedValue::Int(n) => ValueModel::Int(*n),
            TypedValue::Int64(n) => ValueModel::Int64(*n),
            TypedValue::Int32(n) => ValueModel::Int32(*n),
            TypedValue::Int16(n) => ValueModel::Int16(*n),
            TypedValue::Int8(n) => ValueModel::Int8(*n),
            TypedValue::Uint(n) => ValueModel::Uint(*n),
            TypedValue::Uint64(n) => ValueModel::Uint64(*n),
            TypedValue::Uint32(n) => ValueModel::Uint32(*n),
            TypedValue::Uint16(n) => ValueModel::Uint16(*n),
            TypedValue::Uint8(n) => ValueModel::Uint8(*n),
            TypedValue::Float32(t) => ValueModel::Float32(t@),
            TypedValue::Float64(t) => ValueModel::Float64(t@),
            TypedValue::Bool(b) => ValueModel::Bool(*b),
            TypedValue::Dyn(DynPointer::Debug(t)) => ValueModel::Debug(t@),
            TypedValue::Dyn(DynPointer::Display(t)) => ValueModel::Display(t@),
        }
    }
}

fn int_sign(n: i64) -> (r: Sign)
    ensures
        r == sign_of_int(n as int),
{
    if n > 0 {
        Sign::Positive
    } else if n == 0 {
        Sign::Zero
    } else {
        Sign::Negative
    }
}

fn uint_sign(n: u64) -> (r: Sign)
    ensures
        r == sign_of_int(n as int),
{
    if n == 0 {
        Sign::Zero
    } else {
        Sign::Positive
    }
}

fn chars_equal(v: &Vec<char>, lit: &[char]) -> (r: bool)
    ensures
        r == (v@ == lit@),
{
    if v.len() != lit.len() {
        return false;
    }
    let mut i: usize = 0;
    while i < v.len()
        invariant
            v@.len() == lit@.len(),
            i <= v@.len(),
            forall|k: int| 0 <= k < i ==> v@[k] == lit@[k],
        decreases v@.len() - i,
    {
        if v[i] != lit[i] {
            return false;
        }
        i += 1;
    }
    assert(v@ =~= lit@);
    true
}

fn float_sign(t: &String) -> (r: Option<Sign>)
    ensures
        r == sign_of_float(t@),
{
    let v = chars_of(t.as_str());
    let inf = ['i', 'n', 'f'];
    let neg_inf = ['-', 'i', 'n', 'f'];
    let nan = ['N', 'a', 'N'];
    assert(inf@ =~= seq!['i', 'n', 'f']);
    assert(neg_inf@ =~= seq!['-', 'i', 'n', 'f']);
    assert(nan@ =~= seq!['N', 'a', 'N']);
    if chars_equal(&v, &inf) || chars_equal(&v, &neg_inf) || chars_equal(&v, &nan) {
        None
    } else if v.len() > 0 && v[0] == '-' {
        Some(Sign::Negative)
    } else {
        Some(Sign::Positive)
    }
}

fn clone_string(s: &String) -> (r: String)
    ensures
        r@ == s@,
{
    s.clone()
}

/// Appends the decimal digits of `n` to `out`.
fn push_digits(n: u64, out: &mut Vec<char>)
    ensures
        final(out)@ == old(out)@ + digits(n as nat),
    decreases n,
{
    if n >= 10 {
        push_digits(n / 10, out);
    }
    let c = ((n % 10) as u8 + 48u8) as char;
    out.push(c);
    proof {
        if n >= 10 {
            assert(digits(n as nat) == digits((n / 10) as nat).push(digit_char((n % 10) as nat)));
        }
    }
}

/// Decimal text of a signed integer.
fn signed_chars(n: i64) -> (r: Vec<char>)
    ensures
        r@ == int_text(n as int),
{
    let mut out: Vec<char> = Vec::new();
    if n < 0 {
        out.push('-');
        let m: u64 = (-(n as i128)) as u64;
        push_digits(m, &mut out);
    } else {
        push_digits(n as u64, &mut out);
    }
    out
}

/// Decimal text of an unsigned integer.
fn unsigned_chars(n: u64) -> (r: Vec<char>)
    ensures
        r@ == int_text(n as int),
{
    let mut out: Vec<char> = Vec::new();
    push_digits(n, &mut out);
    assert(out@ =~= digits(n as nat));
    out
}

impl TypedValue {
    /// The default string representation, as characters.
    pub fn string_repr(&self) -> (r: Vec<char>)
        ensures
            r@ == self@.repr(),
    {
        match self {
            TypedValue::Str(s) => chars_of(s.as_str()),
            TypedValue::Int(n) => signed_chars(*n as i64),
            TypedValue::Int64(n) => signed_chars(*n),
            TypedValue::Int32(n) => signed_chars(*n as i64),
            TypedValue::Int16(n) => signed_chars(*n as i64),
            TypedValue::Int8(n) => signed_chars(*n as i64),
            TypedValue::Uint(n) => unsigned_chars(*n as u64),
            TypedValue::Uint64(n) => unsigned_chars(*n),
            TypedValue::Uint32(n) => unsigned_chars(*n as u64),
            TypedValue::Uint16(n) => unsigned_chars(*n as u64),
            TypedValue::Uint8(n) => unsigned_chars(*n as u64),
            TypedValue::Float32(t) => chars_of(t.as_str()),
            TypedValue::Float64(t) => chars_of(t.as_str()),
            TypedValue::Bool(true) => {
                let v = vec!['t', 'r', 'u', 'e'];
                assert(v@ =~= bool_text(true));
                v
            },
            TypedValue::Bool(false) => {
                let v = vec!['f', 'a', 'l', 's', 'e'];
                assert(v@ =~= bool_text(false));
                v
            },
            TypedValue::Dyn(DynPointer::Debug(t)) => chars_of(t.as_str()),
            TypedValue::Dyn(DynPointer::Display(t)) => chars_of(t.as_str()),
        }
    }

    pub fn is_numeric(&self) -> (r: bool)
        ensures
            r == self@.is_numeric(),
    {
        match self {
            TypedValue::Str(_) | TypedValue::Bool(_) | TypedValue::Dyn(_) => false,
            _ => true,
        }
    }

    /// The sign of a numeric value; none for other values.
    pub fn sign(&self) -> (r: Option<Sign>)
        ensures
            r == self@.sign(),
    {
        match self {
            TypedValue::Int(n) => Some(int_sign(*n as i64)),
            TypedValue::Int64(n) => Some(int_sign(*n)),
            TypedValue::Int32(n) => Some(int_sign(*n as i64)),
            TypedValue::Int16(n) => Some(int_sign(*n as i64)),
            TypedValue::Int8(n) => Some(int_sign(*n as i64)),
            TypedValue::Uint(n) => Some(uint_sign(*n as u64)),
            TypedValue::Uint64(n) => Some(uint_sign(*n)),
            TypedValue::Uint32(n) => Some(uint_sign(*n as u64)),
            TypedValue::Uint16(n) => Some(uint_sign(*n as u64)),
            TypedValue::Uint8(n) => Some(uint_sign(*n as u64)),
            TypedValue::Float32(t) => float_sign(t),
            TypedValue::Float64(t) => float_sign(t),
            _ => None,
        }
    }

    /// A copy of this value.
    pub fn copy(&self) -> (r: TypedValue)
        ensures
            r@ == self@,
    {
        match self {
            TypedValue::Str(s) => TypedValue::Str(clone_string(s)),
            TypedValue::Int(n) => TypedValue::Int(*n),
            TypedValue::Int64(n) => TypedValue::Int64(*n),
            TypedValue::Int32(n) => TypedValue::Int32(*n),
            TypedValue::Int16(n) => TypedValue::Int16(*n),
            TypedValue::Int8(n) => TypedValue::Int8(*n),
            TypedValue::Uint(n) => TypedValue::Uint(*n),
            TypedValue::Uint64(n) => TypedValue::Uint64(*n),
            TypedValue::Uint32(n) => TypedValue::Uint32(*n),
            TypedValue::Uint16(n) => TypedValue::Uint16(*n),
            TypedValue::Uint8(n) => TypedValue::Uint8(*n),
            TypedValue::Float32(t) => TypedValue::Float32(clone_string(t)),
            TypedValue::Float64(t) => TypedValue::Float64(clone_string(t)),
            TypedValue::Bool(b) => TypedValue::Bool(*b),
            TypedValue::Dyn(DynPointer::Debug(t)) => TypedValue::Dyn(DynPointer::Debug(clone_string(t))),
            TypedValue::Dyn(DynPointer::Display(t)) => TypedValue::Dyn(
                DynPointer::Display(clone_string(t)),
            ),
        }
    }
}

/// A resolver of placeholder names to values. Lookups are pure: the same
/// name gives the same answer, and a miss names the name looked for.
pub trait Context {
    /// The value under `name`, if there is one.
    spec fn lookup(&self, name: Seq<char>) -> Option<ValueModel>;

    fn get_variable(&self, name: &str) -> (r: Result<TypedValue, FormatError>)
        ensures
            match self.lookup(name@) {
                Some(v) => r is Ok && r->Ok_0@ == v,
                None => r is Err && r->Err_0 is VariableNameError
                    && r->Err_0->VariableNameError_0@ == name@,
            },
    ;
}

/// The value of the first entry named `name`.
pub open spec fn find(entries: Seq<(Seq<char>, ValueModel)>, name: Seq<char>) -> Option<ValueModel>
    decreases entries.len(),
{
    if entries.len() == 0 {
        None
    } else if entries[0].0 == name {
        Some(entries[0].1)
    } else {
        find(entries.drop_first(), name)
    }
}

/// Field lookup: over a table of distinctly named fields, each field's name
/// finds exactly that field's value and kind, and any other name finds
/// nothing.
pub proof fn lemma_field_lookup(fields: Seq<(Seq<char>, ValueModel)>, name: Seq<char>)
    requires
        forall|a: int, b: int|
            0 <= a < b < fields.len() ==> (#[trigger] fields[a]).0 != (#[trigger] fields[b]).0,
    ensures
        forall|k: int| 0 <= k < fields.len() && (#[trigger] fields[k]).0 == name ==> find(fields, name) == Some(fields[k].1),
        (forall|k: int| 0 <= k < fields.len() ==> (#[trigger] fields[k]).0 != name) ==> find(fields, name) is None,
    decreases fields.len(),
{
    if fields.len() > 0 {
        let rest = fields.drop_first();
        assert forall|a: int, b: int| 0 <= a < b < rest.len() implies (#[trigger] rest[a]).0 != (#[trigger] rest[b]).0 by {
            assert(rest[a] == fields[a + 1] && rest[b] == fields[b + 1]);
        }
        lemma_field_lookup(rest, name);
        assert forall|k: int| 0 <= k < fields.len() && (#[trigger] fields[k]).0 == name implies find(fields, name) == Some(fields[k].1) by {
            if k > 0 {
                assert(rest[k - 1] == fields[k]);
                assert(fields[0].0 != fields[k].0);
            }
        }
        if forall|k: int| 0 <= k < fields.len() ==> (#[trigger] fields[k]).0 != name {
            assert forall|k: int| 0 <= k < rest.len() implies (#[trigger] rest[k]).0 != name by {
                assert(rest[k] == fields[k + 1]);
            }
        }
    }
}

/// A lookup backed by a list of named values; a later insert under a name
/// hides the earlier ones.
pub struct ValueMap {
    entries: Vec<(String, TypedValue)>,
}

impl View for ValueMap {
    type V = Seq<(Seq<char>, ValueModel)>;

    closed spec fn view(&self) -> Seq<(Seq<char>, ValueModel)> {
        self.entries@.map_values(|e: (String, TypedValue)| (e.0@, e.1@))
    }
}

impl ValueMap {
    pub fn new() -> (r: ValueMap)
        ensures
            forall|n: Seq<char>| r.lookup(n) is None,
    {
        let r = ValueMap { entries: Vec::new() };
        assert forall|n: Seq<char>| r.lookup(n) is None by {
            assert(r@.len() == 0);
        }
        r
    }

    /// Puts `value` under `name`.
    pub fn insert(&mut self, name: &str, value: TypedValue)
        ensures
            final(self).lookup(name@) == Some(value@),
            forall|n: Seq<char>| n != name@ ==> final(self).lookup(n) == old(self).lookup(n),
    {
        self.entries.insert(0, (name.to_owned(), value));
        assert(self@.drop_first() =~= old(self)@);
    }
}

impl Context for ValueMap {
    open spec fn lookup(&self, name: Seq<char>) -> Option<ValueModel> {
        find(self@, name)
    }

    fn get_variable(&self, name: &str) -> (r: Result<TypedValue, FormatError>) {
        let key = name.to_owned();
        let mut i: usize = 0;
        assert(self@.subrange(0, self@.len() as int) =~= self@);
        while i < self.entries.len()
            invariant
                i <= self.entries@.len(),
                key@ == name@,
                find(self@, name@) == find(self@.subrange(i as int, self@.len() as int), name@),
            decreases self.entries@.len() - i,
        {
            let entry = &self.entries[i];
            assert(self@.subrange(i as int, self@.len() as int)[0] == (entry.0@, entry.1@));
            if entry.0 == key {
                return Ok(entry.1.copy());
            }
            assert(self@.subrange(i as int, self@.len() as int).drop_first() =~= self@.subrange(
                i + 1,
                self@.len() as int,
            ));
            i += 1;
        }
        Err(FormatError::VariableNameError(key))
    }
}

} // verus!
