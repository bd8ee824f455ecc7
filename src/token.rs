//! Tokens of a compiled template and what each renders to.

use vstd::prelude::*;
use crate::context::Context;
use crate::format::{Error as FormatError, Format};
use crate::text::{chars_of, push_chars};

verus! {

/// A piece of a compiled template.
#[derive(Debug, PartialEq, Eq)]
pub enum Token {
    /// Text written as it stands.
    Literal(String),
    /// A named placeholder, with its format specification if it has one.
    Variable(String, Option<Format>),
}

/// The mathematical model of a [`Token`].
pub enum TokenModel {
    Literal(Seq<char>),
    Variable(Seq<char>, Option<Format>),
}

impl View for Token {
    type V = TokenModel;

    open spec fn view(&self) -> TokenModel {
        match self {
            Token::Literal(s) => TokenModel::Literal(s@),
            Token::Variable(n, f) => TokenModel::Variable(n@, *f),
        }
    }
}

/// What a token renders to under `ctx`, or the name that `ctx` lacks.
pub open spec fn token_output<C: Context>(t: TokenModel, ctx: &C) -> Result<Seq<char>, Seq<char>> {
    match t {
        TokenModel::Literal(s) => Ok(s),
        TokenModel::Variable(name, format) => match ctx.lookup(name) {
            None => Err(name),
            Some(v) => Ok(
                match format {
                    None => v.repr(),
                    Some(f) => f.layout(v.repr(), v.is_numeric(), v.sign()),
                },
            ),
        },
    }
}

/// What rendering `ts` under `ctx` writes, and the name that stopped it,
/// if one did. Tokens after the first missing name write nothing.
pub open spec fn render<C: Context>(ts: Seq<TokenModel>, ctx: &C) -> (Seq<char>, Option<Seq<char>>)
    decreases ts.len(),
{
    if ts.len() == 0 {
        (Seq::empty(), None)
    } else {
        match token_output(ts[0], ctx) {
            Err(name) => (Seq::empty(), Some(name)),
            Ok(s) => {
                let rest = render(ts.drop_first(), ctx);
                (s + rest.0, rest.1)
            },
        }
    }
}

/// Rendering two token sequences one after the other: the second starts
/// only where the first did not stop.
pub proof fn lemma_render_concat<C: Context>(a: Seq<TokenModel>, b: Seq<TokenModel>, ctx: &C)
    ensures
        render(a + b, ctx) == (if render(a, ctx).1 is Some {
            render(a, ctx)
        } else {
            (render(a, ctx).0 + render(b, ctx).0, render(b, ctx).1)
        }),
    decreases a.len(),
{
    if a.len() == 0 {
        assert(a + b =~= b);
    } else {
        assert((a + b).drop_first() =~= a.drop_first() + b);
        lemma_render_concat(a.drop_first(), b, ctx);
        let ra = render(a.drop_first(), ctx);
        let rb = render(b, ctx);
        match token_output(a[0], ctx) {
            Err(_) => {},
            Ok(s) => {
                assert(s + (ra.0 + rb.0) =~= (s + ra.0) + rb.0);
            },
        }
    }
}

/// Lookup miss: where every token before position `k` resolves and the
/// placeholder at `k` names what `ctx` lacks, rendering stops there with
/// that name, having written only the text of the tokens before it.
pub proof fn lemma_lookup_miss<C: Context>(ts: Seq<TokenModel>, ctx: &C, k: int)
    requires
        0 <= k < ts.len(),
        ts[k] is Variable,
        ctx.lookup(ts[k]->Variable_0) is None,
        render(ts.take(k), ctx).1 is None,
    ensures
        render(ts, ctx) == (render(ts.take(k), ctx).0, Some(ts[k]->Variable_0)),
{
    let t = ts[k];
    assert(ts.take(k + 1) =~= ts.take(k) + seq![t]);
    lemma_render_concat(ts.take(k), seq![t], ctx);
    assert(seq![t][0] == t);
    assert(ts =~= ts.take(k + 1) + ts.skip(k + 1));
    lemma_render_concat(ts.take(k + 1), ts.skip(k + 1), ctx);
    assert(render(ts.take(k), ctx).0 + Seq::<char>::empty() =~= render(ts.take(k), ctx).0);
}

impl Token {
    /// Appends what this token renders to under `ctx`.
    pub fn write_token<C: Context>(&self, out: &mut String, ctx: &C) -> (r: Result<(), FormatError>)
        ensures
            match token_output(self@, ctx) {
                Ok(s) => r is Ok && final(out)@ == old(out)@ + s,
                Err(name) => r is Err && r->Err_0 is VariableNameError
                    && r->Err_0->VariableNameError_0@ == name && final(out)@ == old(out)@,
            },
    {
        match self {
            Token::Literal(lit) => {
                let v = chars_of(lit.as_str());
                push_chars(out, &v, 0, v.len());
                assert(v@.subrange(0, v@.len() as int) =~= v@);
                Ok(())
            },
            Token::Variable(name, format) => {
                let val = ctx.get_variable(name.as_str())?;
                match format {
                    None => {
                        let v = val.string_repr();
                        push_chars(out, &v, 0, v.len());
                        assert(v@.subrange(0, v@.len() as int) =~= v@);
                    },
                    Some(f) => {
                        f.write_formatted(&val, out);
                    },
                }
                Ok(())
            },
        }
    }
}

} // verus!
