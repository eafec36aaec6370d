use vstd::prelude::*;
use crate::ast::{lemma_ops_model_push, ops_model, BfOperator, OpModel};

verus! {

/// One token of a program: an operator character paired with the position it
/// came from, kept as a span anchor for diagnostics.
pub type Token = (char, usize);

/// The eight recognized operator characters. Every other character is a
/// comment and is dropped without diagnostic.
pub open spec fn is_op_char(c: char) -> bool {
    ||| c == '>'
    ||| c == '<'
    ||| c == '+'
    ||| c == '-'
    ||| c == '.'
    ||| c == ','
    ||| c == '['
    ||| c == ']'
}

/// Exec test for `is_op_char`.
pub fn op_char(c: char) -> (r: bool)
    ensures
        r == is_op_char(c),
{
    c == '>' || c == '<' || c == '+' || c == '-' || c == '.' || c == ',' || c == '[' || c == ']'
}

/// The simple (non-bracket) operator a character stands for.
pub open spec fn char_op(c: char) -> OpModel {
    if c == '>' {
        OpModel::PointerInc
    } else if c == '<' {
        OpModel::PointerDec
    } else if c == '+' {
        OpModel::Add
    } else if c == '-' {
        OpModel::Sub
    } else if c == '.' {
        OpModel::Output
    } else {
        OpModel::Input
    }
}

/// The tokens of the first `n` characters of `s`: each operator character
/// becomes one token carrying its position, every other character is dropped.
pub open spec fn spec_tokenize_upto(s: Seq<char>, n: int) -> Seq<Token>
    decreases n,
{
    if n <= 0 {
        Seq::empty()
    } else {
        let t = spec_tokenize_upto(s, n - 1);
        if is_op_char(s[n - 1]) {
            t.push((s[n - 1], (n - 1) as usize))
        } else {
            t
        }
    }
}

/// The token sequence of a whole string.
pub open spec fn spec_tokenize(s: Seq<char>) -> Seq<Token> {
    spec_tokenize_upto(s, s.len() as int)
}

/// The first `n` characters read as a bare token stream: one token per
/// character, operators and comment characters alike (the parser skips the
/// latter).
pub open spec fn raw_tokens_upto(s: Seq<char>, n: int) -> Seq<Token>
    decreases n,
{
    if n <= 0 {
        Seq::empty()
    } else {
        raw_tokens_upto(s, n - 1).push((s[n - 1], (n - 1) as usize))
    }
}

/// A whole character sequence as a bare token stream.
pub open spec fn raw_tokens(s: Seq<char>) -> Seq<Token> {
    raw_tokens_upto(s, s.len() as int)
}

/// What each token of a bare-stream prefix holds.
pub proof fn lemma_raw_tokens_upto(s: Seq<char>, n: int)
    requires
        0 <= n <= s.len(),
    ensures
        raw_tokens_upto(s, n).len() == n,
        forall|i: int| 0 <= i < n ==> #[trigger] raw_tokens_upto(s, n)[i] == (s[i], i as usize),
    decreases n,
{
    if n > 0 {
        lemma_raw_tokens_upto(s, n - 1);
        let prev = raw_tokens_upto(s, n - 1);
        let tok = (s[n - 1], (n - 1) as usize);
        assert(raw_tokens_upto(s, n) == prev.push(tok));
        assert forall|i: int| 0 <= i < n implies #[trigger] raw_tokens_upto(s, n)[i] == (
        s[i],
        i as usize,
        ) by {
            if i < n - 1 {
                assert(prev.push(tok)[i] == prev[i]);
            } else {
                assert(prev.push(tok)[i] == tok);
            }
        }
    }
}

/// What each bare token holds.
pub proof fn lemma_raw_tokens(s: Seq<char>)
    ensures
        raw_tokens(s).len() == s.len(),
        forall|i: int| 0 <= i < s.len() ==> #[trigger] raw_tokens(s)[i] == (s[i], i as usize),
{
    lemma_raw_tokens_upto(s, s.len() as int);
}

/// The parser's state after some tokens: a stack of partially built groups
/// (innermost last), the positions of the opening brackets still unmatched,
/// and whether an unconsumed top-level closing bracket ended the parse.
#[verifier::ext_equal]
pub struct ParseState {
    pub stack: Seq<Seq<OpModel>>,
    pub opens: Seq<usize>,
    pub done: bool,
}

/// The state before any token: one empty top-level group.
pub open spec fn parse_init() -> ParseState {
    ParseState { stack: seq![Seq::empty()], opens: Seq::empty(), done: false }
}

/// One token's effect on the parser state. A comment token changes nothing;
/// an opening bracket opens a group; a closing bracket wraps the innermost
/// group into a `Loop` of the enclosing one, or, at top level, marks the
/// parse as ended with the bracket left unconsumed.
pub open spec fn parse_step(st: ParseState, t: Token) -> ParseState {
    if st.done || !is_op_char(t.0) {
        st
    } else if t.0 == '[' {
        ParseState { stack: st.stack.push(Seq::empty()), opens: st.opens.push(t.1), done: false }
    } else if t.0 == ']' {
        if st.stack.len() <= 1 {
            ParseState { done: true, ..st }
        } else {
            let body = st.stack.last();
            let parent = st.stack[st.stack.len() - 2];
            ParseState {
                stack: st.stack.drop_last().drop_last().push(parent.push(OpModel::Loop(body))),
                opens: st.opens.drop_last(),
                done: false,
            }
        }
    } else {
        ParseState { stack: st.stack.drop_last().push(st.stack.last().push(char_op(t.0))), ..st }
    }
}

/// The parser state after the first `n` tokens.
pub open spec fn parse_upto(ts: Seq<Token>, n: int) -> ParseState
    decreases n,
{
    if n <= 0 {
        parse_init()
    } else {
        parse_step(parse_upto(ts, n - 1), ts[n - 1])
    }
}

/// The result of parsing a token sequence: the top-level operators, or the
/// position of the innermost opening bracket left unmatched when input ended.
pub open spec fn spec_parse(ts: Seq<Token>) -> Result<Seq<OpModel>, usize> {
    let st = parse_upto(ts, ts.len() as int);
    if st.done || st.stack.len() == 1 {
        Ok(st.stack[0])
    } else {
        Err(st.opens.last())
    }
}

/// The parser state always holds one more group than open brackets, and a
/// parse marked ended is at top level.
pub proof fn lemma_parse_state_inv(ts: Seq<Token>, n: int)
    ensures
        parse_upto(ts, n).stack.len() == parse_upto(ts, n).opens.len() + 1,
        parse_upto(ts, n).done ==> parse_upto(ts, n).opens.len() == 0,
    decreases n,
{
    if n > 0 {
        lemma_parse_state_inv(ts, n - 1);
    }
}

/// Once the parse has ended, later tokens change nothing.
pub proof fn lemma_parse_upto_done(ts: Seq<Token>, n1: int, n2: int)
    requires
        0 <= n1 <= n2,
        parse_upto(ts, n1).done,
    ensures
        parse_upto(ts, n2) == parse_upto(ts, n1),
    decreases n2 - n1,
{
    if n2 > n1 {
        lemma_parse_upto_done(ts, n1, n2 - 1);
    }
}

/// The lexer: turns source text into the ordered sequence of its operator
/// tokens, silently dropping every other character as a comment. An empty or
/// all-comment input yields an empty token sequence; there is no error
/// outcome. Positions are character indexes into `s`.
pub fn tokenize_bf_string(s: &str) -> (toks: Vec<Token>)
    ensures
        toks@ == spec_tokenize(s@),
{
    let n = s.unicode_len();
    let mut toks: Vec<Token> = Vec::new();
    let mut i: usize = 0;
    while i < n
        invariant
            n == s@.len(),
            i <= n,
            toks@ == spec_tokenize_upto(s@, i as int),
        decreases n - i,
    {
        let c = s.get_char(i);
        if op_char(c) {
            toks.push((c, i));
        }
        i += 1;
    }
    toks
}

/// The models of a stack of partially built groups.
pub open spec fn stack_model(stack: Seq<Vec<BfOperator>>) -> Seq<Seq<OpModel>> {
    Seq::new(stack.len(), |i: int| ops_model(stack[i]@))
}

/// The simple operator an operator character stands for.
fn char_to_op(c: char) -> (op: BfOperator)
    requires
        is_op_char(c),
        c != '[',
        c != ']',
    ensures
        op.model() == char_op(c),
{
    if c == '>' {
        BfOperator::PointerInc
    } else if c == '<' {
        BfOperator::PointerDec
    } else if c == '+' {
        BfOperator::Add
    } else if c == '-' {
        BfOperator::Sub
    } else if c == '.' {
        BfOperator::Output
    } else {
        BfOperator::Input
    }
}

/// The parser: consumes tokens into operator trees until input is exhausted
/// or an unconsumed top-level closing bracket ends the parse; an opening
/// bracket with no matching closing bracket before input ends is an error
/// carrying that bracket's position. Tokens that are not operator characters
/// are skipped, mirroring the lexer's comment policy on bare token input.
pub fn parse_all(tokens: &Vec<Token>) -> (r: Result<Vec<BfOperator>, usize>)
    ensures
        match r {
            Ok(ops) => spec_parse(tokens@) == Ok::<Seq<OpModel>, usize>(ops_model(ops@)),
            Err(pos) => spec_parse(tokens@) == Err::<Seq<OpModel>, usize>(pos),
        },
{
    let ghost ts = tokens@;
    let mut stack: Vec<Vec<BfOperator>> = Vec::new();
    stack.push(Vec::new());
    let mut opens: Vec<usize> = Vec::new();
    let mut idx: usize = 0;
    let mut done = false;
    proof {
        assert(stack_model(stack@) =~~= parse_init().stack);
    }
    while idx < tokens.len() && !done
        invariant
            idx <= ts.len(),
            ts == tokens@,
            stack@.len() == opens@.len() + 1,
            stack_model(stack@) == parse_upto(ts, idx as int).stack,
            opens@ == parse_upto(ts, idx as int).opens,
            done == parse_upto(ts, idx as int).done,
        decreases ts.len() - idx,
    {
        let ghost st = parse_upto(ts, idx as int);
        proof {
            lemma_parse_state_inv(ts, idx as int);
        }
        let t = tokens[idx];
        if t.0 == '[' {
            stack.push(Vec::new());
            opens.push(t.1);
            proof {
                assert(stack_model(stack@) =~~= parse_step(st, t).stack);
            }
        } else if t.0 == ']' {
            if stack.len() == 1 {
                done = true;
            } else {
                let body = stack.pop().unwrap();
                let mut parent = stack.pop().unwrap();
                let ghost parent0 = parent@;
                parent.push(BfOperator::Loop(body));
                stack.push(parent);
                opens.pop();
                proof {
                    lemma_ops_model_push(parent0, BfOperator::Loop(body));
                    assert(stack_model(stack@) =~~= parse_step(st, t).stack);
                    assert(opens@ =~= parse_step(st, t).opens);
                }
            }
        } else if op_char(t.0) {
            let op = char_to_op(t.0);
            let mut top = stack.pop().unwrap();
            let ghost top0 = top@;
            top.push(op);
            stack.push(top);
            proof {
                lemma_ops_model_push(top0, op);
                assert(stack_model(stack@) =~~= parse_step(st, t).stack);
            }
        } else {
            proof {
                assert(stack_model(stack@) =~~= parse_step(st, t).stack);
            }
        }
        idx += 1;
    }
    proof {
        lemma_parse_state_inv(ts, idx as int);
        if done {
            lemma_parse_upto_done(ts, idx as int, ts.len() as int);
        }
    }
    if opens.len() == 0 {
        let ops = stack.pop().unwrap();
        proof {
            assert(ops_model(ops@) == stack_model(stack@.push(ops))[0]);
        }
        Ok(ops)
    } else {
        let pos = opens[opens.len() - 1];
        Err(pos)
    }
}

} // verus!
