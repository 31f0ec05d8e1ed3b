//! The lexer: source text to tokens, with two static safety checks.
//!
//! Scanning is modelled by the spec function [`lex_from`], a state machine
//! over the character sequence. Outside a comment, each of the eight symbol
//! characters becomes its token, whitespace is skipped, and any other
//! character starts a line comment that discards the rest of the line. A
//! running bracket balance fails the scan with
//! [`LexicalError::UnmatchedBracket`] the instant a `]` has no open `[`, or
//! at the end of input when `[`s are left unclosed; a running pointer
//! simulation fails with [`LexicalError::PointerUnderflow`] the instant the
//! net displacement from cell 0 would go negative.
use vstd::prelude::*;

use crate::grammar::Token;

verus! {

/// A failure of the lexer's static checks. Positions are character indices
/// into the source text.
#[derive(Debug, Clone, Copy, PartialEq, Eq, Structural)]
pub enum LexicalError {
    /// Bracket nesting violated: a premature `]` at `position` (with
    /// `excess` 0), or `excess` unclosed `[`s remaining at the end of input
    /// (with `position` the last character index).
    UnmatchedBracket { position: usize, excess: usize },
    /// The static backward-displacement check failed at `position`.
    PointerUnderflow { position: usize },
}

/// Whether a character is one of the eight symbols of the language.
pub open spec fn is_symbol_char(c: char) -> bool {
    c == '>' || c == '<' || c == '+' || c == '-' || c == '.' || c == ',' || c == '[' || c == ']'
}

/// The token of a symbol character.
pub open spec fn token_of_char(c: char) -> Token {
    if c == '>' {
        Token::MoveForward
    } else if c == '<' {
        Token::MoveBack
    } else if c == '+' {
        Token::Add
    } else if c == '-' {
        Token::Sub
    } else if c == '.' {
        Token::StdOut
    } else if c == ',' {
        Token::StdIn
    } else if c == '[' {
        Token::LoopStart
    } else {
        Token::LoopEnd
    }
}

/// Whether a character counts as whitespace for the lexer (the Unicode
/// whitespace characters).
pub open spec fn is_space_char(c: char) -> bool {
    c == ' ' || c == '\u{09}' || c == '\u{0A}' || c == '\u{0B}' || c == '\u{0C}' || c == '\u{0D}'
        || c == '\u{85}' || c == '\u{A0}' || c == '\u{1680}' || c == '\u{2000}' || c == '\u{2001}'
        || c == '\u{2002}' || c == '\u{2003}' || c == '\u{2004}' || c == '\u{2005}'
        || c == '\u{2006}' || c == '\u{2007}' || c == '\u{2008}' || c == '\u{2009}'
        || c == '\u{200A}' || c == '\u{2028}' || c == '\u{2029}' || c == '\u{202F}'
        || c == '\u{205F}' || c == '\u{3000}'
}

/// Prepend one token to the token sequence of a scan outcome, passing a
/// failure through.
pub open spec fn lex_prepend(t: Token, rest: Result<Seq<Token>, LexicalError>) -> Result<
    Seq<Token>,
    LexicalError,
> {
    match rest {
        Ok(tokens) => Ok(seq![t] + tokens),
        Err(e) => Err(e),
    }
}

/// The position reported when unclosed `[`s remain at the end of input: the
/// index of the last character.
pub open spec fn end_position(s: Seq<char>) -> usize {
    if s.len() == 0 {
        0usize
    } else {
        (s.len() - 1) as usize
    }
}

/// The scan, from position `i` with `in_comment` telling whether the rest of
/// the current line is discarded, `bal` open brackets and a simulated
/// pointer displacement of `ptr`.
pub open spec fn lex_from(
    s: Seq<char>,
    i: int,
    in_comment: bool,
    bal: nat,
    ptr: nat,
) -> Result<Seq<Token>, LexicalError>
    decreases s.len() - i,
{
    if i < 0 || i >= s.len() {
        if bal > 0 {
            Err(LexicalError::UnmatchedBracket { position: end_position(s), excess: bal as usize })
        } else {
            Ok(Seq::empty())
        }
    } else {
        let c = s[i];
        if in_comment {
            lex_from(s, i + 1, c != '\n', bal, ptr)
        } else if c == '>' {
            lex_prepend(Token::MoveForward, lex_from(s, i + 1, false, bal, ptr + 1))
        } else if c == '<' {
            if ptr == 0 {
                Err(LexicalError::PointerUnderflow { position: i as usize })
            } else {
                lex_prepend(Token::MoveBack, lex_from(s, i + 1, false, bal, (ptr - 1) as nat))
            }
        } else if c == '+' {
            lex_prepend(Token::Add, lex_from(s, i + 1, false, bal, ptr))
        } else if c == '-' {
            lex_prepend(Token::Sub, lex_from(s, i + 1, false, bal, ptr))
        } else if c == '.' {
            lex_prepend(Token::StdOut, lex_from(s, i + 1, false, bal, ptr))
        } else if c == ',' {
            lex_prepend(Token::StdIn, lex_from(s, i + 1, false, bal, ptr))
        } else if c == '[' {
            lex_prepend(Token::LoopStart, lex_from(s, i + 1, false, bal + 1, ptr))
        } else if c == ']' {
            if bal == 0 {
                Err(LexicalError::UnmatchedBracket { position: i as usize, excess: 0 })
            } else {
                lex_prepend(Token::LoopEnd, lex_from(s, i + 1, false, (bal - 1) as nat, ptr))
            }
        } else if is_space_char(c) {
            lex_from(s, i + 1, false, bal, ptr)
        } else {
            lex_from(s, i + 1, true, bal, ptr)
        }
    }
}

/// The outcome of scanning a whole source text.
pub open spec fn lex_spec(s: Seq<char>) -> Result<Seq<Token>, LexicalError> {
    lex_from(s, 0, false, 0, 0)
}

/// The lexer: holds the token sequence of a successfully scanned source
/// text.
#[derive(Debug)]
pub struct Lexer {
    tokens_: Vec<Token>,
}

impl View for Lexer {
    type V = Seq<Token>;

    closed spec fn view(&self) -> Seq<Token> {
        self.tokens_@
    }
}

/// Whether a character counts as whitespace for the lexer.
fn is_space(c: char) -> (r: bool)
    ensures
        r == is_space_char(c),
{
    c == ' ' || c == '\u{09}' || c == '\u{0A}' || c == '\u{0B}' || c == '\u{0C}' || c == '\u{0D}'
        || c == '\u{85}' || c == '\u{A0}' || c == '\u{1680}' || c == '\u{2000}' || c == '\u{2001}'
        || c == '\u{2002}' || c == '\u{2003}' || c == '\u{2004}' || c == '\u{2005}'
        || c == '\u{2006}' || c == '\u{2007}' || c == '\u{2008}' || c == '\u{2009}'
        || c == '\u{200A}' || c == '\u{2028}' || c == '\u{2029}' || c == '\u{202F}'
        || c == '\u{205F}' || c == '\u{3000}'
}

impl Lexer {
    /// Scan the given source text. On success the new lexer holds exactly
    /// the token sequence of the scan; on failure the error of the scan's
    /// first failing check is returned.
    pub fn new(program: String) -> (r: Result<Lexer, LexicalError>)
        ensures
            match r {
                Ok(lex) => lex_spec(program@) == Ok::<Seq<Token>, LexicalError>(lex@),
                Err(e) => lex_spec(program@) == Err::<Seq<Token>, LexicalError>(e),
            },
    {
        let s = program.as_str();
        let n = s.unicode_len();
        let mut tokens: Vec<Token> = Vec::new();
        let mut i: usize = 0;
        let mut in_comment: bool = false;
        let mut bal: usize = 0;
        let mut ptr: usize = 0;
        while i < n
            invariant
                s@ == program@,
                n == s@.len(),
                i <= n,
                bal <= i,
                ptr <= i,
                lex_spec(s@) == lex_prepend_all(
                    tokens@,
                    lex_from(s@, i as int, in_comment, bal as nat, ptr as nat),
                ),
            decreases n - i,
        {
            let c = s.get_char(i);
            let ghost pre_tokens = tokens@;
            let ghost pre = lex_from(s@, i as int, in_comment, bal as nat, ptr as nat);
            if in_comment {
                in_comment = c != '\n';
            } else if c == '>' {
                ptr = ptr + 1;
                tokens.push(Token::MoveForward);
            } else if c == '<' {
                if ptr == 0 {
                    return Err(LexicalError::PointerUnderflow { position: i });
                }
                ptr = ptr - 1;
                tokens.push(Token::MoveBack);
            } else if c == '+' {
                tokens.push(Token::Add);
            } else if c == '-' {
                tokens.push(Token::Sub);
            } else if c == '.' {
                tokens.push(Token::StdOut);
            } else if c == ',' {
                tokens.push(Token::StdIn);
            } else if c == '[' {
                bal = bal + 1;
                tokens.push(Token::LoopStart);
            } else if c == ']' {
                if bal == 0 {
                    return Err(LexicalError::UnmatchedBracket { position: i, excess: 0 });
                }
                bal = bal - 1;
                tokens.push(Token::LoopEnd);
            } else if is_space(c) {
            } else {
                in_comment = true;
            }
            i = i + 1;
            proof {
                if tokens@ != pre_tokens {
                    let t = tokens@.last();
                    lemma_prepend_shift(pre_tokens, t, lex_from(s@, i as int, in_comment, bal as nat, ptr as nat));
                }
            }
        }
        if bal > 0 {
            return Err(
                LexicalError::UnmatchedBracket {
                    position: if n == 0 {
                        0
                    } else {
                        n - 1
                    },
                    excess: bal,
                },
            );
        }
        proof {
            assert(lex_spec(s@) == lex_prepend_all(
                tokens@,
                Ok::<Seq<Token>, LexicalError>(Seq::empty()),
            ));
            assert(tokens@ + Seq::<Token>::empty() =~= tokens@);
        }
        Ok(Lexer { tokens_: tokens })
    }

    /// The token sequence of the scanned source.
    pub fn tokens(&self) -> (r: &Vec<Token>)
        ensures
            r@ == self@,
    {
        &self.tokens_
    }

    /// Transfer ownership of the token sequence to the caller.
    pub fn move_tokens(self) -> (r: Vec<Token>)
        ensures
            r@ == self@,
    {
        self.tokens_
    }
}

/// Prepend an already-scanned token prefix to the outcome of the rest of a
/// scan.
pub open spec fn lex_prepend_all(prefix: Seq<Token>, rest: Result<Seq<Token>, LexicalError>) -> Result<
    Seq<Token>,
    LexicalError,
> {
    match rest {
        Ok(tokens) => Ok(prefix + tokens),
        Err(e) => Err(e),
    }
}

/// Shifting one token from a scan outcome into the already-scanned prefix
/// keeps the composed outcome unchanged.
proof fn lemma_prepend_shift(prefix: Seq<Token>, t: Token, rest: Result<Seq<Token>, LexicalError>)
    ensures
        lex_prepend_all(prefix.push(t), rest) == lex_prepend_all(prefix, lex_prepend(t, rest)),
{
    match rest {
        Ok(tokens) => {
            assert(prefix.push(t) + tokens =~= prefix + (seq![t] + tokens));
        },
        Err(_) => {},
    }
}

// ---------------------------------------------------------------------
// The scan characterized over the source characters.
// ---------------------------------------------------------------------

/// Whether position `i` lies inside a line comment: a non-symbol,
/// non-whitespace character opens one, and the next line ends it.
pub open spec fn in_comment_at(s: Seq<char>, i: int) -> bool
    decreases i,
{
    if i <= 0 {
        false
    } else {
        let c = s[i - 1];
        if in_comment_at(s, i - 1) {
            c != '\n'
        } else {
            !is_symbol_char(c) && !is_space_char(c)
        }
    }
}

/// Whether the character at `i` becomes a token: a symbol outside comments.
pub open spec fn sig_at(s: Seq<char>, i: int) -> bool {
    0 <= i < s.len() && !in_comment_at(s, i) && is_symbol_char(s[i])
}

/// The running bracket balance over the significant characters before `i`.
pub open spec fn bal_at(s: Seq<char>, i: int) -> int
    decreases i,
{
    if i <= 0 {
        0
    } else {
        bal_at(s, i - 1) + (if sig_at(s, i - 1) {
            if s[i - 1] == '[' {
                1int
            } else if s[i - 1] == ']' {
                -1int
            } else {
                0int
            }
        } else {
            0int
        })
    }
}

/// The running pointer displacement over the significant characters before
/// `i`.
pub open spec fn ptr_at(s: Seq<char>, i: int) -> int
    decreases i,
{
    if i <= 0 {
        0
    } else {
        ptr_at(s, i - 1) + (if sig_at(s, i - 1) {
            if s[i - 1] == '>' {
                1int
            } else if s[i - 1] == '<' {
                -1int
            } else {
                0int
            }
        } else {
            0int
        })
    }
}

/// The tokens of the significant characters from `i` on.
pub open spec fn tokens_from(s: Seq<char>, i: int) -> Seq<Token>
    decreases s.len() - i,
{
    if i < 0 || i >= s.len() {
        Seq::empty()
    } else if sig_at(s, i) {
        seq![token_of_char(s[i])] + tokens_from(s, i + 1)
    } else {
        tokens_from(s, i + 1)
    }
}

/// The scan from a position where no check has failed yet: it succeeds with
/// the tokens of the significant characters when the brackets come out
/// even, and reports the excess when open brackets remain — provided no
/// premature loop-end and no pointer underflow occurs later.
proof fn lemma_lex_from_no_early_error(s: Seq<char>, i: int, bal: nat, ptr: nat)
    requires
        0 <= i <= s.len(),
        forall|j: int|
            i <= j < s.len() && sig_at(s, j) && s[j] == ']' ==> bal + bal_at(s, j) - bal_at(s, i)
                > 0,
        forall|j: int|
            i <= j < s.len() && sig_at(s, j) && s[j] == '<' ==> ptr + ptr_at(s, j) - ptr_at(s, i)
                > 0,
    ensures
        bal + bal_at(s, s.len() as int) - bal_at(s, i) == 0 ==> lex_from(
            s,
            i,
            in_comment_at(s, i),
            bal,
            ptr,
        ) == Ok::<Seq<Token>, LexicalError>(tokens_from(s, i)),
        bal + bal_at(s, s.len() as int) - bal_at(s, i) > 0 ==> lex_from(
            s,
            i,
            in_comment_at(s, i),
            bal,
            ptr,
        ) == Err::<Seq<Token>, LexicalError>(
            LexicalError::UnmatchedBracket {
                position: end_position(s),
                excess: (bal + bal_at(s, s.len() as int) - bal_at(s, i)) as usize,
            },
        ),
    decreases s.len() - i,
{
    if i < s.len() {
        let c = s[i];
        assert(bal_at(s, i + 1) == bal_at(s, i) + (if sig_at(s, i) {
            if c == '[' {
                1int
            } else if c == ']' {
                -1int
            } else {
                0int
            }
        } else {
            0int
        }));
        assert(ptr_at(s, i + 1) == ptr_at(s, i) + (if sig_at(s, i) {
            if c == '>' {
                1int
            } else if c == '<' {
                -1int
            } else {
                0int
            }
        } else {
            0int
        }));
        if in_comment_at(s, i) {
            assert(in_comment_at(s, i + 1) == (c != '\n'));
            lemma_lex_from_no_early_error(s, i + 1, bal, ptr);
        } else if c == '[' {
            assert(!in_comment_at(s, i + 1));
            lemma_lex_from_no_early_error(s, i + 1, (bal + 1) as nat, ptr);
        } else if c == ']' {
            assert(bal > 0);
            assert(!in_comment_at(s, i + 1));
            lemma_lex_from_no_early_error(s, i + 1, (bal - 1) as nat, ptr);
        } else if c == '>' {
            assert(!in_comment_at(s, i + 1));
            lemma_lex_from_no_early_error(s, i + 1, bal, ptr + 1);
        } else if c == '<' {
            assert(ptr > 0);
            assert(!in_comment_at(s, i + 1));
            lemma_lex_from_no_early_error(s, i + 1, bal, (ptr - 1) as nat);
        } else if is_symbol_char(c) {
            assert(!in_comment_at(s, i + 1));
            lemma_lex_from_no_early_error(s, i + 1, bal, ptr);
        } else if is_space_char(c) {
            assert(!in_comment_at(s, i + 1));
            lemma_lex_from_no_early_error(s, i + 1, bal, ptr);
        } else {
            assert(in_comment_at(s, i + 1));
            assert(!sig_at(s, i));
            lemma_lex_from_no_early_error(s, i + 1, bal, ptr);
        }
    }
}

/// The scan from a position where no check has failed yet, reaching a
/// premature loop-end at `j` with no earlier failure: it fails with
/// `UnmatchedBracket` exactly there.
proof fn lemma_lex_from_premature(s: Seq<char>, i: int, bal: nat, ptr: nat, j: int)
    requires
        0 <= i <= j < s.len(),
        sig_at(s, j),
        s[j] == ']',
        bal + bal_at(s, j) - bal_at(s, i) == 0,
        forall|m: int|
            i <= m < j && sig_at(s, m) && s[m] == ']' ==> bal + bal_at(s, m) - bal_at(s, i) > 0,
        forall|m: int|
            i <= m <= j && sig_at(s, m) && s[m] == '<' ==> ptr + ptr_at(s, m) - ptr_at(s, i) > 0,
    ensures
        lex_from(s, i, in_comment_at(s, i), bal, ptr) == Err::<Seq<Token>, LexicalError>(
            LexicalError::UnmatchedBracket { position: j as usize, excess: 0 },
        ),
    decreases j - i,
{
    let c = s[i];
    assert(bal_at(s, i + 1) == bal_at(s, i) + (if sig_at(s, i) {
        if c == '[' {
            1int
        } else if c == ']' {
            -1int
        } else {
            0int
        }
    } else {
        0int
    }));
    assert(ptr_at(s, i + 1) == ptr_at(s, i) + (if sig_at(s, i) {
        if c == '>' {
            1int
        } else if c == '<' {
            -1int
        } else {
            0int
        }
    } else {
        0int
    }));
    if i == j {
        assert(!in_comment_at(s, i));
        assert(bal == 0);
    } else {
        if in_comment_at(s, i) {
            assert(in_comment_at(s, i + 1) == (c != '\n'));
            lemma_lex_from_premature(s, i + 1, bal, ptr, j);
        } else if c == '[' {
            assert(!in_comment_at(s, i + 1));
            lemma_lex_from_premature(s, i + 1, (bal + 1) as nat, ptr, j);
        } else if c == ']' {
            assert(bal > 0);
            assert(!in_comment_at(s, i + 1));
            lemma_lex_from_premature(s, i + 1, (bal - 1) as nat, ptr, j);
        } else if c == '>' {
            assert(!in_comment_at(s, i + 1));
            lemma_lex_from_premature(s, i + 1, bal, ptr + 1, j);
        } else if c == '<' {
            assert(ptr > 0);
            assert(!in_comment_at(s, i + 1));
            lemma_lex_from_premature(s, i + 1, bal, (ptr - 1) as nat, j);
        } else if is_symbol_char(c) {
            assert(!in_comment_at(s, i + 1));
            lemma_lex_from_premature(s, i + 1, bal, ptr, j);
        } else if is_space_char(c) {
            assert(!in_comment_at(s, i + 1));
            lemma_lex_from_premature(s, i + 1, bal, ptr, j);
        } else {
            assert(in_comment_at(s, i + 1));
            lemma_lex_from_premature(s, i + 1, bal, ptr, j);
        }
    }
}

/// A loop-end with no unmatched loop-start before it, and no earlier
/// failing check, fails the scan with `UnmatchedBracket` at exactly its
/// index.
pub proof fn lemma_lex_premature_bracket(s: Seq<char>, j: int)
    requires
        0 <= j < s.len(),
        sig_at(s, j),
        s[j] == ']',
        bal_at(s, j) == 0,
        forall|m: int| 0 <= m < j && sig_at(s, m) && s[m] == ']' ==> bal_at(s, m) > 0,
        forall|m: int| 0 <= m <= j && sig_at(s, m) && s[m] == '<' ==> ptr_at(s, m) > 0,
    ensures
        lex_spec(s) == Err::<Seq<Token>, LexicalError>(
            LexicalError::UnmatchedBracket { position: j as usize, excess: 0 },
        ),
{
    lemma_lex_from_premature(s, 0, 0, 0, j);
}

/// An input whose loop-starts outnumber its loop-ends, with no premature
/// loop-end and no pointer underflow, fails the scan at the end of input
/// with `UnmatchedBracket` reporting the excess count.
pub proof fn lemma_lex_excess_brackets(s: Seq<char>)
    requires
        forall|j: int| 0 <= j < s.len() && sig_at(s, j) && s[j] == ']' ==> bal_at(s, j) > 0,
        forall|j: int| 0 <= j < s.len() && sig_at(s, j) && s[j] == '<' ==> ptr_at(s, j) > 0,
        bal_at(s, s.len() as int) > 0,
    ensures
        lex_spec(s) == Err::<Seq<Token>, LexicalError>(
            LexicalError::UnmatchedBracket {
                position: end_position(s),
                excess: bal_at(s, s.len() as int) as usize,
            },
        ),
{
    lemma_lex_from_no_early_error(s, 0, 0, 0);
}

/// A source whose brackets come out even, with no premature loop-end and
/// no pointer underflow, scans successfully to the tokens of its
/// significant characters.
pub proof fn lemma_lex_success(s: Seq<char>)
    requires
        forall|j: int| 0 <= j < s.len() && sig_at(s, j) && s[j] == ']' ==> bal_at(s, j) > 0,
        forall|j: int| 0 <= j < s.len() && sig_at(s, j) && s[j] == '<' ==> ptr_at(s, j) > 0,
        bal_at(s, s.len() as int) == 0,
    ensures
        lex_spec(s) == Ok::<Seq<Token>, LexicalError>(tokens_from(s, 0)),
{
    lemma_lex_from_no_early_error(s, 0, 0, 0);
}

} // verus!
