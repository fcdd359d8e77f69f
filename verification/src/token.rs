//! Lexical layer: splitting a formula line into tokens and classifying each
//! token as an integer operand, an operator, or an unknown word.

use vstd::prelude::*;
use vstd::string::StrSliceExecFns;

verus! {

/// The five binary operators of the language.
#[derive(Clone, Copy, Debug, PartialEq, Eq, Structural)]
pub enum Op {
    Add,
    Sub,
    Mul,
    Div,
    Rem,
}

/// What a single token means to the stack machine.
#[derive(Clone, Copy, Debug, PartialEq, Eq, Structural)]
pub enum Token {
    /// A signed 32-bit integer literal.
    Operand(i32),
    /// One of `+ - * / %`.
    Operator(Op),
    /// Anything else: a syntax error when reached.
    Unknown,
}

/// The whitespace characters that separate tokens.
pub open spec fn is_space(c: char) -> bool {
    c == ' ' || c == '\t' || c == '\n' || c == '\r' || c == '\u{b}' || c == '\u{c}'
}

/// A decimal digit `0` through `9`.
pub open spec fn is_digit(c: char) -> bool {
    48 <= c as u32 <= 57
}

/// The numeric value of a decimal digit.
pub open spec fn digit_val(c: char) -> int
    recommends
        is_digit(c),
{
    c as u32 - 48
}

/// Every character of `s` is a decimal digit.
pub open spec fn all_digits(s: Seq<char>) -> bool {
    forall|i: int| 0 <= i < s.len() ==> is_digit(#[trigger] s[i])
}

/// The value of a string of decimal digits, most significant first.
pub open spec fn dec_val(s: Seq<char>) -> int
    recommends
        all_digits(s),
    decreases s.len(),
{
    if s.len() == 0 {
        0
    } else {
        dec_val(s.drop_last()) * 10 + digit_val(s.last())
    }
}

/// The integer a token denotes, if it is a well-formed signed 32-bit decimal
/// literal: an optional `+` or `-` sign, then one or more digits, with the
/// value in the range of `i32`.
pub open spec fn parse_i32(t: Seq<char>) -> Option<int> {
    let neg = t.len() > 0 && t[0] == '-';
    let digs = if t.len() > 0 && (t[0] == '+' || t[0] == '-') {
        t.drop_first()
    } else {
        t
    };
    if digs.len() == 0 || !all_digits(digs) {
        None
    } else {
        let v = if neg {
            -dec_val(digs)
        } else {
            dec_val(digs)
        };
        if i32::MIN <= v <= i32::MAX {
            Some(v)
        } else {
            None
        }
    }
}

/// The operator a single character denotes, if any.
pub open spec fn op_of_char(c: char) -> Option<Op> {
    if c == '+' {
        Some(Op::Add)
    } else if c == '-' {
        Some(Op::Sub)
    } else if c == '*' {
        Some(Op::Mul)
    } else if c == '/' {
        Some(Op::Div)
    } else if c == '%' {
        Some(Op::Rem)
    } else {
        None
    }
}

/// How the machine reads a token: an integer literal wins over everything,
/// then a lone operator character, and any other word is unknown.
pub open spec fn classify(t: Seq<char>) -> Token {
    match parse_i32(t) {
        Some(v) => Token::Operand(v as i32),
        None => {
            if t.len() == 1 {
                match op_of_char(t[0]) {
                    Some(op) => Token::Operator(op),
                    None => Token::Unknown,
                }
            } else {
                Token::Unknown
            }
        },
    }
}

/// `parse_i32` with its result narrowed to the machine's word type.
pub open spec fn parse_token_spec(t: Seq<char>) -> Option<i32> {
    match parse_i32(t) {
        Some(v) => Some(v as i32),
        None => None,
    }
}

/// The value of a digit string is never negative.
proof fn lemma_dec_val_nonneg(s: Seq<char>)
    requires
        all_digits(s),
    ensures
        dec_val(s) >= 0,
    decreases s.len(),
{
    if s.len() > 0 {
        lemma_dec_val_nonneg(s.drop_last());
    }
}

/// A digit string is worth at least any of its prefixes: appending digits
/// never shrinks the value.
proof fn lemma_dec_val_prefix_le(s: Seq<char>, k: int)
    requires
        all_digits(s),
        0 <= k <= s.len(),
    ensures
        dec_val(s.take(k)) <= dec_val(s),
    decreases s.len(),
{
    if k == s.len() {
        assert(s.take(k) =~= s);
    } else {
        assert(s.drop_last().take(k) =~= s.take(k));
        lemma_dec_val_prefix_le(s.drop_last(), k);
        lemma_dec_val_nonneg(s.drop_last());
    }
}

/// Parses a token as a signed 32-bit decimal literal, as `parse_i32` reads it.
pub fn parse_token(t: &str) -> (r: Option<i32>)
    ensures
        r == parse_token_spec(t@),
{
    let n = t.unicode_len();
    if n == 0 {
        return None;
    }
    let c0 = t.get_char(0);
    let neg = c0 == '-';
    let signed = neg || c0 == '+';
    let mut i: usize = if signed {
        1
    } else {
        0
    };
    let ghost digs: Seq<char> = if signed {
        t@.drop_first()
    } else {
        t@
    };
    proof {
        assert(digs =~= t@.skip(i as int));
    }
    if i == n {
        // A bare sign has no digits.
        return None;
    }
    let cap: i64 = if neg {
        2147483648
    } else {
        2147483647
    };
    let mut acc: i64 = 0;
    while i < n
        invariant
            n == t@.len(),
            n > 0,
            neg == (t@[0] == '-'),
            signed == (t@[0] == '+' || t@[0] == '-'),
            digs == if signed {
                t@.drop_first()
            } else {
                t@
            },
            signed ==> 1 <= i <= n,
            !signed ==> 0 <= i <= n,
            digs.len() == if signed {
                n - 1
            } else {
                n as int
            },
            cap == if neg {
                0x8000_0000i64
            } else {
                0x7fff_ffffi64
            },
            all_digits(digs.take(i - if signed { 1int } else { 0int })),
            acc == dec_val(digs.take(i - if signed { 1int } else { 0int })),
            0 <= acc <= cap,
        decreases n - i,
    {
        let ghost j: int = i - if signed { 1int } else { 0int };
        proof {
            assert(digs[j] == t@[i as int]);
        }
        let c = t.get_char(i);
        let cu = c as u32;
        if cu < 48 || cu > 57 {
            // A non-digit after the optional sign: no integer literal.
            proof {
                assert(!is_digit(digs[j]));
            }
            return None;
        }
        let d = (cu - 48) as i64;
        acc = acc * 10 + d;
        proof {
            assert(digs.take(j + 1).drop_last() =~= digs.take(j));
            assert(digs.take(j + 1).last() == digs[j]);
            assert(all_digits(digs.take(j + 1)));
        }
        if acc > cap {
            // Too many digits for the word type, whatever follows.
            proof {
                if all_digits(digs) {
                    lemma_dec_val_prefix_le(digs, j + 1);
                }
            }
            return None;
        }
        i = i + 1;
    }
    proof {
        assert(digs.take(digs.len() as int) =~= digs);
    }
    if neg {
        Some((-acc) as i32)
    } else {
        Some(acc as i32)
    }
}

/// Classifies one token for the stack machine, as `classify` reads it.
pub fn classify_token(t: &str) -> (r: Token)
    ensures
        r == classify(t@),
{
    match parse_token(t) {
        Some(v) => Token::Operand(v),
        None => {
            if t.unicode_len() == 1 {
                let c = t.get_char(0);
                if c == '+' {
                    Token::Operator(Op::Add)
                } else if c == '-' {
                    Token::Operator(Op::Sub)
                } else if c == '*' {
                    Token::Operator(Op::Mul)
                } else if c == '/' {
                    Token::Operator(Op::Div)
                } else if c == '%' {
                    Token::Operator(Op::Rem)
                } else {
                    Token::Unknown
                }
            } else {
                Token::Unknown
            }
        },
    }
}

/// Whether an executable character is a token separator.
fn is_space_char(c: char) -> (r: bool)
    ensures
        r == is_space(c),
{
    c == ' ' || c == '\t' || c == '\n' || c == '\r' || c == '\u{b}' || c == '\u{c}'
}

/// Splitting the line `s` on whitespace, with `cur` the partial token read so
/// far: the words of `cur + s`, in order, with no empty words.
pub open spec fn tokenize_acc(s: Seq<char>, cur: Seq<char>) -> Seq<Seq<char>>
    decreases s.len(),
{
    if s.len() == 0 {
        if cur.len() == 0 {
            Seq::empty()
        } else {
            seq![cur]
        }
    } else if is_space(s[0]) {
        if cur.len() == 0 {
            tokenize_acc(s.drop_first(), Seq::empty())
        } else {
            seq![cur] + tokenize_acc(s.drop_first(), Seq::empty())
        }
    } else {
        tokenize_acc(s.drop_first(), cur.push(s[0]))
    }
}

/// The whitespace-separated tokens of a line, in order.
pub open spec fn tokenize(s: Seq<char>) -> Seq<Seq<char>> {
    tokenize_acc(s, Seq::empty())
}

/// The views of a vector of borrowed tokens.
pub open spec fn toks_view(v: Seq<&str>) -> Seq<Seq<char>> {
    v.map_values(|t: &str| t@)
}

/// Splits a line into its whitespace-separated tokens.
pub fn tokenize_line<'a>(s: &'a str) -> (r: Vec<&'a str>)
    ensures
        toks_view(r@) == tokenize(s@),
{
    let n = s.unicode_len();
    let mut toks: Vec<&'a str> = Vec::new();
    let mut start: usize = 0;
    let mut in_tok: bool = false;
    let mut i: usize = 0;
    proof {
        assert(s@.skip(0) =~= s@);
        assert(toks_view(toks@) + tokenize_acc(s@, Seq::empty()) =~= tokenize(s@));
    }
    while i < n
        invariant
            n == s@.len(),
            0 <= i <= n,
            in_tok ==> start < i,
            toks_view(toks@) + tokenize_acc(
                s@.skip(i as int),
                if in_tok {
                    s@.subrange(start as int, i as int)
                } else {
                    Seq::<char>::empty()
                },
            ) == tokenize(s@),
        decreases n - i,
    {
        let ghost rest = s@.skip(i as int);
        let ghost cur: Seq<char> = if in_tok {
            s@.subrange(start as int, i as int)
        } else {
            Seq::<char>::empty()
        };
        let c = s.get_char(i);
        proof {
            assert(rest[0] == s@[i as int]);
            assert(rest.drop_first() =~= s@.skip(i + 1));
        }
        if is_space_char(c) {
            if in_tok {
                let t = s.substring_char(start, i);
                toks.push(t);
                in_tok = false;
                proof {
                    assert(toks_view(toks@) =~= toks_view(toks@.drop_last()) + seq![cur]);
                    assert(tokenize_acc(rest, cur) == seq![cur] + tokenize_acc(
                        s@.skip(i + 1),
                        Seq::<char>::empty(),
                    ));
                }
            }
        } else {
            if !in_tok {
                start = i;
                in_tok = true;
                proof {
                    assert(cur.push(s@[i as int]) =~= s@.subrange(start as int, i + 1));
                }
            } else {
                proof {
                    assert(cur.push(s@[i as int]) =~= s@.subrange(start as int, i + 1));
                }
            }
        }
        i = i + 1;
    }
    proof {
        assert(s@.skip(n as int) =~= Seq::<char>::empty());
    }
    if in_tok {
        let ghost cur = s@.subrange(start as int, n as int);
        let t = s.substring_char(start, n);
        toks.push(t);
        proof {
            assert(toks_view(toks@) =~= toks_view(toks@.drop_last()) + seq![cur]);
            assert(tokenize_acc(Seq::<char>::empty(), cur) == seq![cur]);
            assert(toks_view(toks@) =~= tokenize(s@));
        }
    }
    toks
}

} // verus!
