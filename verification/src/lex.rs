//! The lexer: splits source text into a flat token stream.
use vstd::prelude::*;

verus! {

/// A source token. `(`, `)`, `'`, `` ` `` and `,` always stand alone;
/// `.` standing alone is the dotted-pair marker; any other run of
/// non-whitespace, non-delimiter characters is a symbol, kept verbatim.
#[derive(Debug, PartialEq, Eq, Clone)]
pub enum Token {
    LeftParen,
    RightParen,
    Quote,
    Backquote,
    Comma,
    Dot,
    Symbol(String),
}

/// The mathematical model of a token.
pub enum SpecToken {
    LeftParen,
    RightParen,
    Quote,
    Backquote,
    Comma,
    Dot,
    Symbol(Seq<char>),
}

impl View for Token {
    type V = SpecToken;

    open spec fn view(&self) -> SpecToken {
        match self {
            Token::LeftParen => SpecToken::LeftParen,
            Token::RightParen => SpecToken::RightParen,
            Token::Quote => SpecToken::Quote,
            Token::Backquote => SpecToken::Backquote,
            Token::Comma => SpecToken::Comma,
            Token::Dot => SpecToken::Dot,
            Token::Symbol(s) => SpecToken::Symbol(s@),
        }
    }
}

/// The models of a token sequence.
pub open spec fn token_views(s: Seq<Token>) -> Seq<SpecToken> {
    s.map_values(|t: Token| t@)
}

/// Single-character tokens that always terminate a symbol in progress.
pub open spec fn spec_is_delim(c: char) -> bool {
    c == '(' || c == ')' || c == '\'' || c == '`' || c == ','
}

/// ASCII whitespace separates tokens and is otherwise discarded.
pub open spec fn spec_is_space(c: char) -> bool {
    c == ' ' || c == '\t' || c == '\n' || c == '\r' || c == '\u{0c}'
}

/// The token of a single delimiter character.
pub open spec fn spec_delim_token(c: char) -> SpecToken {
    if c == '(' {
        SpecToken::LeftParen
    } else if c == ')' {
        SpecToken::RightParen
    } else if c == '\'' {
        SpecToken::Quote
    } else if c == '`' {
        SpecToken::Backquote
    } else {
        SpecToken::Comma
    }
}

/// A completed character run: the dotted-pair marker when it is a lone
/// dot, a symbol otherwise.
pub open spec fn spec_classify(cur: Seq<char>) -> SpecToken {
    if cur == seq!['.'] {
        SpecToken::Dot
    } else {
        SpecToken::Symbol(cur)
    }
}

/// The tokens emitted when a character run ends: none if it is empty.
pub open spec fn spec_flush(cur: Seq<char>) -> Seq<SpecToken> {
    if cur.len() == 0 {
        Seq::empty()
    } else {
        seq![spec_classify(cur)]
    }
}

/// Tokenizing `s` with the pending character run `cur`.
pub open spec fn spec_tokenize_go(s: Seq<char>, cur: Seq<char>) -> Seq<SpecToken>
    decreases s.len(),
{
    if s.len() == 0 {
        spec_flush(cur)
    } else {
        let c = s.first();
        if spec_is_delim(c) {
            spec_flush(cur) + seq![spec_delim_token(c)] + spec_tokenize_go(
                s.drop_first(),
                Seq::empty(),
            )
        } else if spec_is_space(c) {
            spec_flush(cur) + spec_tokenize_go(s.drop_first(), Seq::empty())
        } else {
            spec_tokenize_go(s.drop_first(), cur.push(c))
        }
    }
}

/// The token stream of a source text.
pub open spec fn spec_tokenize(s: Seq<char>) -> Seq<SpecToken> {
    spec_tokenize_go(s, Seq::empty())
}

/// Accumulates the characters of the symbol currently being read.
pub struct Tokenizer {
    cur: String,
}

impl Tokenizer {
    fn new() -> (t: Tokenizer)
        ensures
            t.cur@ == Seq::<char>::empty(),
    {
        Tokenizer { cur: String::new() }
    }

    /// Ends the character run in progress, emitting its token if any.
    fn push_token(&mut self, tokens: &mut Vec<Token>)
        ensures
            token_views(final(tokens)@) == token_views(old(tokens)@) + spec_flush(old(self).cur@),
            final(self).cur@ == Seq::<char>::empty(),
    {
        let ghost prev = tokens@;
        if self.cur.as_str().unicode_len() > 0 {
            let is_dot: bool = self.cur.as_str().unicode_len() == 1 && self.cur.as_str().get_char(
                0,
            ) == '.';
            proof {
                if is_dot {
                    assert(self.cur@ =~= seq!['.']);
                } else {
                    assert(self.cur@ != seq!['.']);
                }
            }
            if is_dot {
                tokens.push(Token::Dot);
            } else {
                tokens.push(Token::Symbol(self.cur.clone()));
            }
            self.cur = String::new();
            proof {
                assert(token_views(tokens@) =~= token_views(prev) + spec_flush(old(self).cur@));
            }
        } else {
            proof {
                assert(token_views(tokens@) =~= token_views(prev) + spec_flush(old(self).cur@));
            }
        }
    }
}

/// Splits source text into its token stream.
pub fn tokenize(s: &str) -> (tokens: Vec<Token>)
    ensures
        token_views(tokens@) == spec_tokenize(s@),
{
    let mut t = Tokenizer::new();
    let mut tokens: Vec<Token> = Vec::new();
    let n: usize = s.unicode_len();
    let mut i: usize = 0;
    proof {
        assert(s@.skip(0) =~= s@);
    }
    while i < n
        invariant
            i <= n,
            n == s@.len(),
            token_views(tokens@) + spec_tokenize_go(s@.skip(i as int), t.cur@) == spec_tokenize(
                s@,
            ),
        decreases n - i,
    {
        let c: char = s.get_char(i);
        let ghost rest = s@.skip(i as int);
        proof {
            assert(rest.first() == c);
            assert(rest.drop_first() =~= s@.skip(i as int + 1));
        }
        let ghost prev_tokens = tokens@;
        let ghost prev_cur = t.cur@;
        if c == '(' || c == ')' || c == '\'' || c == '`' || c == ',' {
            t.push_token(&mut tokens);
            let tok: Token = if c == '(' {
                Token::LeftParen
            } else if c == ')' {
                Token::RightParen
            } else if c == '\'' {
                Token::Quote
            } else if c == '`' {
                Token::Backquote
            } else {
                Token::Comma
            };
            tokens.push(tok);
            proof {
                assert(token_views(tokens@) =~= token_views(prev_tokens) + spec_flush(prev_cur)
                    + seq![spec_delim_token(c)]);
                assert(token_views(prev_tokens) + (spec_flush(prev_cur) + seq![
                    spec_delim_token(c),
                ] + spec_tokenize_go(rest.drop_first(), Seq::empty())) =~= token_views(tokens@)
                    + spec_tokenize_go(rest.drop_first(), Seq::empty()));
            }
        } else if c == ' ' || c == '\t' || c == '\n' || c == '\r' || c == '\u{0c}' {
            t.push_token(&mut tokens);
            proof {
                assert(token_views(prev_tokens) + (spec_flush(prev_cur) + spec_tokenize_go(
                    rest.drop_first(),
                    Seq::empty(),
                )) =~= token_views(tokens@) + spec_tokenize_go(rest.drop_first(), Seq::empty()));
            }
        } else {
            let piece: &str = s.substring_char(i, i + 1);
            t.cur.append(piece);
            proof {
                assert(t.cur@ =~= prev_cur.push(c));
            }
        }
        i = i + 1;
    }
    proof {
        assert(s@.skip(n as int) =~= Seq::<char>::empty());
    }
    t.push_token(&mut tokens);
    proof {
        assert(token_views(tokens@) =~= spec_tokenize(s@));
    }
    tokens
}

} // verus!
