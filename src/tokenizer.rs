use vstd::prelude::*;
use vstd::slice::slice_subrange;
use vstd::string::StringSliceAdditionalSpecFns;

use crate::font::Font;
use crate::geometry::Color;

verus! {

pub const ASCII_OPEN_BRACE: u8 = 123;

pub const ASCII_CLOSED_BRACE: u8 = 125;

/// A piece of a format string.
#[derive(Copy, Clone, Debug, PartialEq, Eq)]
pub enum Token<'a> {
    /// Process literal text content.
    Literal(&'a [u8]),
    /// Process argument with specified descriptor.
    Argument(&'a [u8]),
}

/// What a `Token` holds, as a value.
pub enum TokenView {
    Literal(Seq<u8>),
    Argument(Seq<u8>),
}

impl<'a> View for Token<'a> {
    type V = TokenView;

    open spec fn view(&self) -> TokenView {
        match *self {
            Token::Literal(b) => TokenView::Literal(b@),
            Token::Argument(b) => TokenView::Argument(b@),
        }
    }
}

/// A formatting operation: text to lay out, or a change of style.
#[derive(Copy, Clone, Debug)]
pub enum Op<'a> {
    /// Render text with current color and font.
    Text(&'a [u8]),
    /// Set current text color.
    Color(Color),
    /// Set currently used font.
    Font(Font),
}

/// The index of the first `b` in `s` at or after `from`, or `s.len()` where
/// there is none.
pub open spec fn find_byte(s: Seq<u8>, from: int, b: u8) -> int
    decreases s.len() - from,
{
    if from < 0 || from >= s.len() {
        s.len() as int
    } else if s[from] == b {
        from
    } else {
        find_byte(s, from + 1, b)
    }
}

/// The token that starts at `pos` in `s`, with the position after it; `None`
/// where the input ends there, or where an argument opened there is never
/// closed.
pub open spec fn token_at(s: Seq<u8>, pos: int) -> Option<(TokenView, int)> {
    if pos < 0 || pos >= s.len() {
        None
    } else if s[pos] == ASCII_OPEN_BRACE {
        let close = find_byte(s, pos + 1, ASCII_CLOSED_BRACE);
        if close >= s.len() {
            None
        } else {
            Some((TokenView::Argument(s.subrange(pos + 1, close)), close + 1))
        }
    } else {
        let open = find_byte(s, pos, ASCII_OPEN_BRACE);
        Some((TokenView::Literal(s.subrange(pos, open)), open))
    }
}

/// Bounds of `find_byte`.
pub proof fn lemma_find_byte(s: Seq<u8>, from: int, b: u8)
    requires
        0 <= from,
    ensures
        from <= find_byte(s, from, b) <= s.len() || (from > s.len() && find_byte(s, from, b)
            == s.len()),
        find_byte(s, from, b) < s.len() ==> s[find_byte(s, from, b)] == b,
        forall|k: int| from <= k < find_byte(s, from, b) ==> s[k] != b,
    decreases s.len() - from,
{
    if from < s.len() && s[from] != b {
        lemma_find_byte(s, from + 1, b);
    }
}

/// Each token moves past at least one byte.
pub proof fn lemma_token_at_progress(s: Seq<u8>, pos: int)
    requires
        0 <= pos,
    ensures
        token_at(s, pos) matches Some((_, next)) ==> pos < next <= s.len(),
{
    if 0 <= pos < s.len() {
        if s[pos] == ASCII_OPEN_BRACE {
            lemma_find_byte(s, pos + 1, ASCII_CLOSED_BRACE);
        } else {
            lemma_find_byte(s, pos, ASCII_OPEN_BRACE);
        }
    }
}

/// The tokens of `s` from `pos` on, in source order.
pub open spec fn tokens_from(s: Seq<u8>, pos: int) -> Seq<TokenView>
    decreases s.len() - pos,
{
    if pos < 0 || pos >= s.len() {
        Seq::empty()
    } else {
        match token_at(s, pos) {
            None => Seq::empty(),
            Some((t, next)) => {
                if pos < next <= s.len() {
                    seq![t] + tokens_from(s, next)
                } else {
                    Seq::empty()
                }
            },
        }
    }
}

/// The tokens of a whole format string.
pub open spec fn tokenize(s: Seq<u8>) -> Seq<TokenView> {
    tokens_from(s, 0)
}

/// Whether `ops` is what `toks` turn into when literals become text and each
/// argument is handed to `resolve`: an argument for which `resolve` returns
/// `None` contributes nothing.
pub open spec fn translated<'a, F: Fn(&'a [u8]) -> Option<Op<'a>>>(
    toks: Seq<TokenView>,
    ops: Seq<Op<'a>>,
    resolve: F,
) -> bool
    decreases toks.len(),
{
    if toks.len() == 0 {
        ops.len() == 0
    } else {
        match toks.last() {
            TokenView::Literal(b) => {
                &&& ops.len() > 0
                &&& match ops.last() {
                    Op::Text(t) => t@ == b,
                    _ => false,
                }
                &&& translated(toks.drop_last(), ops.drop_last(), resolve)
            },
            TokenView::Argument(a) => exists|arg: &'a [u8], o: Option<Op<'a>>|
                #[trigger] call_ensures(resolve, (arg,), o) && arg@ == a && match o {
                    None => translated(toks.drop_last(), ops, resolve),
                    Some(op) => ops.len() > 0 && ops.last() == op && translated(
                        toks.drop_last(),
                        ops.drop_last(),
                        resolve,
                    ),
                },
        }
    }
}

/// Processes a format string into a sequence of `Token`s, one at a time.
pub struct Tokenizer<'a> {
    input: &'a [u8],
    pos: usize,
}

impl<'a> Tokenizer<'a> {
    #[verifier::type_invariant]
    spec fn inv(self) -> bool {
        self.pos <= self.input@.len()
    }

    /// The tokens that are still to come.
    pub closed spec fn remaining(self) -> Seq<TokenView> {
        tokens_from(self.input@, self.pos as int)
    }

    /// Create a new tokenizer for `format`.
    pub fn new(format: &'a str) -> (r: Self)
        ensures
            r.remaining() == tokenize(format.spec_bytes()),
    {
        let input = format.as_bytes();
        Self { input, pos: 0 }
    }

    /// The next token, or `None` once the input is used up or an argument is
    /// left unclosed; after that the tokenizer stays empty.
    pub fn next(&mut self) -> (r: Option<Token<'a>>)
        ensures
            match r {
                None => old(self).remaining() == Seq::<TokenView>::empty()
                    && final(self).remaining() == Seq::<TokenView>::empty(),
                Some(t) => old(self).remaining() == seq![t@] + final(self).remaining(),
            },
    {
        proof {
            use_type_invariant(&*self);
            lemma_token_at_progress(self.input@, self.pos as int);
        }
        let len = self.input.len();
        if self.pos >= len {
            return None;
        }
        let start = self.pos;
        if self.input[start] == ASCII_OPEN_BRACE {
            // Argument token is starting. Read until we find '}', then return the
            // content between the braces. If we encounter the end of string before
            // the closing brace, quit.
            proof {
                lemma_find_byte(self.input@, start + 1, ASCII_CLOSED_BRACE);
            }
            let mut close = start + 1;
            while close < len && self.input[close] != ASCII_CLOSED_BRACE
                invariant
                    start < close <= len,
                    len == self.input@.len(),
                    find_byte(self.input@, start + 1, ASCII_CLOSED_BRACE) == find_byte(
                        self.input@,
                        close as int,
                        ASCII_CLOSED_BRACE,
                    ),
                decreases len - close,
            {
                close = close + 1;
            }
            if close >= len {
                self.pos = len;
                proof {
                    assert(token_at(self.input@, len as int) is None);
                }
                None
            } else {
                self.pos = close + 1;
                let arg = slice_subrange(self.input, start + 1, close);
                Some(Token::Argument(arg))
            }
        } else {
            // Literal token is starting. Read until we find '{' or the end of string.
            proof {
                lemma_find_byte(self.input@, start as int, ASCII_OPEN_BRACE);
            }
            let mut open = start + 1;
            while open < len && self.input[open] != ASCII_OPEN_BRACE
                invariant
                    start < open <= len,
                    len == self.input@.len(),
                    find_byte(self.input@, start as int, ASCII_OPEN_BRACE) == find_byte(
                        self.input@,
                        open as int,
                        ASCII_OPEN_BRACE,
                    ),
                decreases len - open,
            {
                open = open + 1;
            }
            self.pos = open;
            let lit = slice_subrange(self.input, start, open);
            Some(Token::Literal(lit))
        }
    }
    /// Transform into a sequence of `Op`s. Literal tokens become `Op::Text`,
    /// argument tokens are converted through `arg_to_op`.
    pub fn into_ops<F: Fn(&'a [u8]) -> Option<Op<'a>>>(self, arg_to_op: F) -> (r: Vec<Op<'a>>)
        requires
            forall|a: &'a [u8]| #[trigger] call_requires(arg_to_op, (a,)),
        ensures
            translated(self.remaining(), r@, arg_to_op),
    {
        let mut tokens = self;
        let mut ops: Vec<Op<'a>> = Vec::new();
        let ghost seen: Seq<TokenView> = Seq::empty();
        loop
            invariant
                seen + tokens.remaining() == self.remaining(),
                translated(seen, ops@, arg_to_op),
                forall|a: &'a [u8]| #[trigger] call_requires(arg_to_op, (a,)),
            ensures
                translated(self.remaining(), ops@, arg_to_op),
            decreases tokens.remaining().len(),
        {
            let ghost before = tokens.remaining();
            match tokens.next() {
                None => {
                    assert(seen =~= self.remaining());
                    break ;
                },
                Some(token) => {
                    let ghost seen_next = seen.push(token@);
                    assert(seen_next.drop_last() =~= seen);
                    assert(seen_next + tokens.remaining() =~= seen + before);
                    let ghost ops_before = ops@;
                    match token {
                        Token::Literal(literal) => {
                            ops.push(Op::Text(literal));
                            assert(ops@.drop_last() =~= ops_before);
                        },
                        Token::Argument(argument) => {
                            let resolved = arg_to_op(argument);
                            match resolved {
                                None => {},
                                Some(op) => {
                                    ops.push(op);
                                    assert(ops@.drop_last() =~= ops_before);
                                },
                            }
                        },
                    }
                    proof {
                        seen = seen_next;
                    }
                },
            }
        }
        ops
    }
}

} // verus!
