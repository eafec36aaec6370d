use vstd::prelude::*;
use crate::ast::{ops_model, BfOperator, OpModel};
use crate::parser::{
    lemma_raw_tokens, parse_all, raw_tokens, spec_parse, spec_tokenize, tokenize_bf_string, Token,
};

verus! {

/// One argument of the three-slot configuration list, reduced to the kinds
/// the rules read. A caller that parses host syntax hands each argument over
/// in this form.
#[derive(Debug, PartialEq)]
pub enum MacroArg {
    /// A type argument.
    TypeArg,
    /// A const argument that is an integer literal: its decimal digits.
    IntArg(String),
    /// A const argument of any other shape.
    ConstOther,
    /// Any other kind of argument.
    OtherArg,
}

/// The program text, in one of its two surfaces: a string literal whose
/// contents are tokenized with comments dropped, or a bare operator stream
/// given as its characters in order.
#[derive(Debug, PartialEq)]
pub enum ScriptSource {
    Literal(String),
    RawOps(String),
}

/// A construction-time rejection. No program is produced after any of these.
#[derive(Clone, Copy, Debug, PartialEq, Eq, Structural)]
pub enum BfError {
    /// The configuration list did not have exactly three arguments.
    WrongArgCount { found: usize },
    /// Slot 1 (the cell type) was not a type.
    ExpectedType,
    /// The named slot was not an integer literal constant.
    ExpectedConstInt { slot: usize },
    /// The named slot's integer literal is malformed or does not fit the
    /// machine's index range.
    BadIntLiteral { slot: usize },
    /// An opening bracket at this position has no matching closing bracket.
    UnmatchedOpenBracket { pos: usize },
}

/// A decimal digit.
pub open spec fn is_digit(c: char) -> bool {
    48 <= c as int <= 57
}

/// The value of a digit; zero for any other character.
pub open spec fn digit_val(c: char) -> nat {
    if is_digit(c) {
        (c as int - 48) as nat
    } else {
        0
    }
}

/// Whether every character of `s` is a decimal digit.
pub open spec fn all_digits(s: Seq<char>) -> bool {
    forall|i: int| 0 <= i < s.len() ==> is_digit(#[trigger] s[i])
}

/// A nonempty run of decimal digits.
pub open spec fn valid_digits(s: Seq<char>) -> bool {
    s.len() > 0 && all_digits(s)
}

/// The number the digits of `s` spell in base ten.
pub open spec fn digits_value(s: Seq<char>) -> nat
    decreases s.len(),
{
    if s.len() == 0 {
        0
    } else {
        digits_value(s.drop_last()) * 10 + digit_val(s.last())
    }
}

/// A longer digit prefix never spells a smaller number.
proof fn lemma_digits_value_mono(s: Seq<char>, i: int, j: int)
    requires
        0 <= i <= j <= s.len(),
    ensures
        digits_value(s.subrange(0, i)) <= digits_value(s.subrange(0, j)),
    decreases j - i,
{
    if i < j {
        lemma_digits_value_mono(s, i, j - 1);
        let p = s.subrange(0, j);
        assert(p.drop_last() =~= s.subrange(0, j - 1));
        assert(digits_value(s.subrange(0, j - 1)) * 10 >= digits_value(s.subrange(0, j - 1)))
            by (nonlinear_arith);
    }
}

/// Reads a nonempty decimal digit string as a machine-sized integer, exactly
/// when its value fits; rejects any other character and any value out of
/// range.
pub fn parse_usize(digits: &str) -> (r: Option<usize>)
    ensures
        r matches Some(n) ==> valid_digits(digits@) && n as nat == digits_value(digits@),
        r is None ==> !(valid_digits(digits@) && digits_value(digits@) <= usize::MAX),
{
    let n = digits.unicode_len();
    if n == 0 {
        return None;
    }
    let mut i: usize = 0;
    let mut acc: usize = 0;
    while i < n
        invariant
            n == digits@.len(),
            0 < n,
            i <= n,
            all_digits(digits@.subrange(0, i as int)),
            acc as nat == digits_value(digits@.subrange(0, i as int)),
        decreases n - i,
    {
        let c = digits.get_char(i);
        let cv = c as u32;
        if cv < 48 || cv > 57 {
            return None;
        }
        let d = (cv - 48) as usize;
        proof {
            assert(digits@.subrange(0, i + 1).drop_last() =~= digits@.subrange(0, i as int));
            assert(digits@.subrange(0, i + 1).last() == digits@[i as int]);
            assert(digits_value(digits@.subrange(0, i + 1)) == acc as nat * 10 + d as nat);
        }
        if acc > usize::MAX / 10 {
            proof {
                assert(acc as nat * 10 + d as nat > usize::MAX) by (nonlinear_arith)
                    requires
                        acc > usize::MAX / 10,
                        usize::MAX / 10 == (usize::MAX - usize::MAX % 10) / 10 + 0,
                        d >= 0,
                ;
                lemma_digits_value_mono(digits@, i + 1, n as int);
                assert(digits@.subrange(0, n as int) =~= digits@);
            }
            return None;
        }
        let acc10 = acc * 10;
        proof {
            assert(acc * 10 <= (usize::MAX / 10) * 10 <= usize::MAX) by (nonlinear_arith)
                requires
                    acc <= usize::MAX / 10,
            ;
        }
        if d > usize::MAX - acc10 {
            proof {
                lemma_digits_value_mono(digits@, i + 1, n as int);
                assert(digits@.subrange(0, n as int) =~= digits@);
            }
            return None;
        }
        acc = acc10 + d;
        i += 1;
    }
    proof {
        assert(digits@.subrange(0, n as int) =~= digits@);
    }
    Some(acc)
}

/// The outcome the configuration rules give to an argument list: the cell
/// count and the negative offset, or the rejection.
pub open spec fn spec_config(args: Seq<MacroArg>) -> Result<(nat, nat), BfError> {
    if args.len() != 3 {
        Err(BfError::WrongArgCount { found: args.len() as usize })
    } else if !(args[0] is TypeArg) {
        Err(BfError::ExpectedType)
    } else {
        match args[1] {
            MacroArg::IntArg(c) => {
                if !(valid_digits(c@) && digits_value(c@) <= usize::MAX) {
                    Err(BfError::BadIntLiteral { slot: 2 })
                } else {
                    match args[2] {
                        MacroArg::IntArg(g) => {
                            if !(valid_digits(g@) && digits_value(g@) <= usize::MAX) {
                                Err(BfError::BadIntLiteral { slot: 3 })
                            } else {
                                Ok((digits_value(c@), digits_value(g@)))
                            }
                        },
                        _ => Err(BfError::ExpectedConstInt { slot: 3 }),
                    }
                }
            },
            _ => Err(BfError::ExpectedConstInt { slot: 2 }),
        }
    }
}

/// The token sequence a script source stands for.
pub open spec fn source_tokens(source: ScriptSource) -> Seq<Token> {
    match source {
        ScriptSource::Literal(s) => spec_tokenize(s@),
        ScriptSource::RawOps(s) => raw_tokens(s@),
    }
}

/// A parsed program: the configuration and the operator tree.
#[derive(Debug, PartialEq)]
pub struct BfScript {
    /// How many cells lie before logical address zero; also the pointer's
    /// initial value.
    pub negative_ptrs: usize,
    /// How many cells the tape has beyond the negative region.
    pub cells: usize,
    /// The top-level operators, in order.
    pub script: Vec<BfOperator>,
}

/// The mathematical content of a parsed program.
#[verifier::ext_equal]
pub struct ScriptModel {
    pub cells: nat,
    pub negative_ptrs: nat,
    pub script: Seq<OpModel>,
}

/// What parsing owes: the configuration values and the tree of the source,
/// or the first rejection in slot order, configuration before script.
pub open spec fn spec_script(args: Seq<MacroArg>, source: ScriptSource) -> Result<
    ScriptModel,
    BfError,
> {
    match spec_config(args) {
        Err(e) => Err(e),
        Ok((cells, negative_ptrs)) => match spec_parse(source_tokens(source)) {
            Ok(ops) => Ok(ScriptModel { cells, negative_ptrs, script: ops }),
            Err(pos) => Err(BfError::UnmatchedOpenBracket { pos }),
        },
    }
}

impl BfScript {
    /// The tree and configuration this program stands for.
    pub open spec fn model(self) -> ScriptModel {
        ScriptModel {
            cells: self.cells as nat,
            negative_ptrs: self.negative_ptrs as nat,
            script: ops_model(self.script@),
        }
    }

    /// Parses the strict three-slot configuration `<cell_type, cells,
    /// negative_ptrs>` and then the script. The cell type is accepted
    /// syntactically and ignored: cells are always 8-bit unsigned. Exactly
    /// the inputs `spec_script` accepts are accepted, with its error.
    pub fn parse(args: &Vec<MacroArg>, source: &ScriptSource) -> (r: Result<BfScript, BfError>)
        ensures
            match r {
                Ok(s) => spec_script(args@, *source) == Ok::<ScriptModel, BfError>(s.model()),
                Err(e) => spec_script(args@, *source) == Err::<ScriptModel, BfError>(e),
            },
    {
        if args.len() != 3 {
            return Err(BfError::WrongArgCount { found: args.len() });
        }
        match &args[0] {
            MacroArg::TypeArg => {},
            _ => {
                return Err(BfError::ExpectedType);
            },
        }
        let cells: usize = match &args[1] {
            MacroArg::IntArg(c) => match parse_usize(c.as_str()) {
                Some(v) => v,
                None => {
                    return Err(BfError::BadIntLiteral { slot: 2 });
                },
            },
            _ => {
                return Err(BfError::ExpectedConstInt { slot: 2 });
            },
        };
        let negative_ptrs: usize = match &args[2] {
            MacroArg::IntArg(g) => match parse_usize(g.as_str()) {
                Some(v) => v,
                None => {
                    return Err(BfError::BadIntLiteral { slot: 3 });
                },
            },
            _ => {
                return Err(BfError::ExpectedConstInt { slot: 3 });
            },
        };
        let parsed = match source {
            ScriptSource::Literal(s) => {
                let toks = tokenize_bf_string(s.as_str());
                parse_all(&toks)
            },
            ScriptSource::RawOps(s) => {
                let toks = raw_tokens_of(s.as_str());
                parse_all(&toks)
            },
        };
        match parsed {
            Ok(script) => Ok(BfScript { negative_ptrs, cells, script }),
            Err(pos) => Err(BfError::UnmatchedOpenBracket { pos }),
        }
    }
}

/// Turns bare program text into one token per character, operators and
/// comment characters alike; positions are character indexes.
pub fn raw_tokens_of(s: &str) -> (toks: Vec<Token>)
    ensures
        toks@ == raw_tokens(s@),
{
    let n = s.unicode_len();
    let mut toks: Vec<Token> = Vec::new();
    let mut i: usize = 0;
    while i < n
        invariant
            n == s@.len(),
            i <= n,
            toks@.len() == i,
            forall|j: int| 0 <= j < i ==> #[trigger] toks@[j] == (s@[j], j as usize),
        decreases n - i,
    {
        let c = s.get_char(i);
        toks.push((c, i));
        i += 1;
    }
    proof {
        lemma_raw_tokens(s@);
        assert(toks@ =~= raw_tokens(s@));
    }
    toks
}

} // verus!
