//! The tokenizer: scans a line of text left to right into tokens,
//! skipping whitespace, with one-token lookahead.
//!
//! [`spec_next_token`] is the mathematical scanner for a single token
//! and [`spec_tokens`] iterates it over a whole character sequence;
//! every executable item here is proved against them.

use vstd::prelude::*;

use crate::lexicon::{
    is_digit, dot_count, lemma_dot_count_push, spec_op_from_char, token_safe, tokens_safe, dup_token, Atom,
    CalcError, ErrorView, Operation, Paren, Token, TokenView, is_digit_char,
};

verus! {

/// Whether a character counts as whitespace; the tokenizer never emits
/// it. The result of `char::is_whitespace`, named so contracts can
/// speak of it.
pub uninterp spec fn is_space(c: char) -> bool;

/// Whether a character is alphabetic and so forms a variable token.
/// The result of `char::is_alphabetic`, named so contracts can speak
/// of it.
pub uninterp spec fn is_alpha(c: char) -> bool;

/// Relies on `char::is_whitespace`: true exactly for characters with
/// the Unicode White_Space property, a function of the character alone.
pub assume_specification[ char::is_whitespace ](c: char) -> (r: bool)
    ensures
        r == is_space(c),
;

/// Relies on `char::is_alphabetic`: true exactly for characters in the
/// Unicode Alphabetic category, a function of the character alone.
pub assume_specification[ char::is_alphabetic ](c: char) -> (r: bool)
    ensures
        r == is_alpha(c),
;

/// Relies on `String::push`: appends exactly the one character to the
/// end of the string.
pub assume_specification[ String::push ](s: &mut String, c: char)
    ensures
        final(s)@ == old(s)@.push(c),
;

/// The length of the longest prefix of `s` made of digits and dots:
/// how far a number token, begun just before `s`, extends into it.
pub open spec fn numtail_len(s: Seq<char>) -> nat
    decreases s.len(),
{
    if s.len() > 0 && (is_digit(s[0]) || s[0] == '.') {
        1 + numtail_len(s.drop_first())
    } else {
        0
    }
}

/// A number's tail never runs past the end of the input.
pub proof fn lemma_numtail_len_bound(s: Seq<char>)
    ensures
        numtail_len(s) <= s.len(),
    decreases s.len(),
{
    if s.len() > 0 && (is_digit(s[0]) || s[0] == '.') {
        lemma_numtail_len_bound(s.drop_first());
    }
}

/// The first token of `s`, with the characters that follow it; `None`
/// past the last token. Whitespace is skipped — the plain space
/// directly, the rest through [`is_space`], so that a variable is
/// known never to be the space character; a leading digit opens a
/// maximal run of digits and dots, which must hold at most one dot; a
/// leading alphabetic character is a one-character variable; then
/// parentheses and operator characters; anything else is unknown.
pub open spec fn spec_next_token(s: Seq<char>) -> Result<Option<(TokenView, Seq<char>)>, ErrorView>
    decreases s.len(),
{
    if s.len() == 0 {
        Ok(None)
    } else {
        let c = s[0];
        if c == ' ' || is_space(c) {
            spec_next_token(s.drop_first())
        } else if is_digit(c) {
            let n = 1 + numtail_len(s.drop_first());
            let lex = s.take(n as int);
            if dot_count(lex) <= 1 {
                Ok(Some((TokenView::Atom(crate::lexicon::AtomView::Number(lex)), s.skip(n as int))))
            } else {
                Err(ErrorView::MalformedNumber(lex))
            }
        } else if is_alpha(c) {
            Ok(Some((TokenView::Atom(crate::lexicon::AtomView::Var(c)), s.drop_first())))
        } else if c == '(' {
            Ok(Some((TokenView::Paren(Paren::Open), s.drop_first())))
        } else if c == ')' {
            Ok(Some((TokenView::Paren(Paren::Close), s.drop_first())))
        } else {
            match spec_op_from_char(c) {
                Some(op) => Ok(Some((TokenView::Op(op), s.drop_first()))),
                None => Err(ErrorView::UnknownOperator(c)),
            }
        }
    }
}

/// Scanning a token consumes at least one character.
pub proof fn lemma_next_token_shrinks(s: Seq<char>)
    ensures
        match spec_next_token(s) {
            Ok(Some(p)) => p.1.len() < s.len(),
            _ => true,
        },
    decreases s.len(),
{
    if s.len() > 0 {
        if s[0] == ' ' || is_space(s[0]) {
            lemma_next_token_shrinks(s.drop_first());
        } else if is_digit(s[0]) {
            lemma_numtail_len_bound(s.drop_first());
            let n = 1 + numtail_len(s.drop_first());
            assert(s.drop_first().len() == s.len() - 1);
            assert(n <= s.len());
            assert(s.skip(n as int).len() == s.len() - n);
        }
    }
}

/// The whole token sequence of `s`, or its first lexical error.
pub open spec fn spec_tokens(s: Seq<char>) -> Result<Seq<TokenView>, ErrorView>
    decreases s.len(),
    via spec_tokens_decreases
{
    match spec_next_token(s) {
        Ok(None) => Ok(Seq::empty()),
        Ok(Some((t, rest))) => match spec_tokens(rest) {
            Ok(ts) => Ok(seq![t] + ts),
            Err(e) => Err(e),
        },
        Err(e) => Err(e),
    }
}

#[via_fn]
proof fn spec_tokens_decreases(s: Seq<char>) {
    lemma_next_token_shrinks(s);
}

/// The characters counted by [`numtail_len`] are digits and dots.
proof fn lemma_numtail_chars(t: Seq<char>)
    ensures
        forall|j: int| 0 <= j < numtail_len(t) ==> is_digit(#[trigger] t[j]) || t[j] == '.',
    decreases t.len(),
{
    if t.len() > 0 && (is_digit(t[0]) || t[0] == '.') {
        lemma_numtail_chars(t.drop_first());
        lemma_numtail_len_bound(t);
        assert forall|j: int| 0 <= j < numtail_len(t) implies is_digit(t[j]) || t[j] == '.' by {
            if j > 0 {
                assert(t.drop_first()[j - 1] == t[j]);
            }
        }
    }
}

/// Every token the scanner produces is of the tokenizer's shape.
proof fn lemma_next_token_safe(s: Seq<char>)
    ensures
        match spec_next_token(s) {
            Ok(Some(p)) => token_safe(p.0),
            _ => true,
        },
    decreases s.len(),
{
    if s.len() > 0 {
        let c = s[0];
        if c == ' ' || is_space(c) {
            lemma_next_token_safe(s.drop_first());
        } else if is_digit(c) {
            lemma_numtail_len_bound(s.drop_first());
            lemma_numtail_chars(s.drop_first());
            let n = 1 + numtail_len(s.drop_first());
            let lex = s.take(n as int);
            assert forall|i: int| 0 <= i < lex.len() implies is_digit(lex[i]) || lex[i] == '.' by {
                if i > 0 {
                    assert(lex[i] == s.drop_first()[i - 1]);
                } else {
                    assert(lex[0] == s[0]);
                }
            }
        }
    }
}

/// Every token of a fully tokenized line is of the tokenizer's shape.
pub proof fn lemma_spec_tokens_safe(s: Seq<char>)
    ensures
        match spec_tokens(s) {
            Ok(ts) => tokens_safe(ts),
            _ => true,
        },
    decreases s.len(),
{
    lemma_next_token_shrinks(s);
    lemma_next_token_safe(s);
    if let Ok(Some((t, rest))) = spec_next_token(s) {
        lemma_spec_tokens_safe(rest);
        if let Ok(ts) = spec_tokens(rest) {
            assert forall|i: int| 0 <= i < (seq![t] + ts).len() implies token_safe(
                #[trigger] (seq![t] + ts)[i],
            ) by {
                if i > 0 {
                    assert((seq![t] + ts)[i] == ts[i - 1]);
                }
            }
        }
    }
}

/// The views of a token vector's elements.
pub open spec fn token_views(ts: Seq<Token>) -> Seq<TokenView> {
    ts.map_values(|t: Token| t@)
}

/// The tokenizer: owns the scanned characters, a cursor, and at most
/// one token of lookahead.
pub struct Lexer {
    chars: Vec<char>,
    pos: usize,
    peeked: Option<Token>,
}

impl Lexer {
    /// The characters not yet scanned.
    pub closed spec fn remaining_chars(self) -> Seq<char> {
        self.chars@.skip(self.pos as int)
    }

    pub closed spec fn wf(self) -> bool {
        self.pos <= self.chars@.len()
    }

    /// The tokens this lexer will still produce, or the first error on
    /// the way to the end of the input.
    pub closed spec fn stream(self) -> Result<Seq<TokenView>, ErrorView> {
        match self.peeked {
            Some(t) => match spec_tokens(self.remaining_chars()) {
                Ok(ts) => Ok(seq![t@] + ts),
                Err(e) => Err(e),
            },
            None => spec_tokens(self.remaining_chars()),
        }
    }

    /// The next token to come, if scanning it succeeds; errors past it
    /// are not yet seen.
    pub closed spec fn head(self) -> Result<Option<TokenView>, ErrorView> {
        match self.peeked {
            Some(t) => Ok(Some(t@)),
            None => match spec_next_token(self.remaining_chars()) {
                Ok(None) => Ok(None),
                Ok(Some((t, rest))) => Ok(Some(t)),
                Err(e) => Err(e),
            },
        }
    }

    /// How much input is left, counting a peeked token as one unit.
    pub closed spec fn measure(self) -> nat {
        self.remaining_chars().len() + (if self.peeked is Some {
            1nat
        } else {
            0nat
        })
    }

    /// A lexer at the start of `input`.
    #[verifier::loop_isolation(false)]
    pub fn new(input: &str) -> (l: Lexer)
        ensures
            l.wf(),
            l.stream() == spec_tokens(input@),
            l.head() == ({
                match spec_next_token(input@) {
                    Ok(None) => Ok::<Option<TokenView>, ErrorView>(None),
                    Ok(Some((t, rest))) => Ok(Some(t)),
                    Err(e) => Err(e),
                }
            }),
    {
        let n = input.unicode_len();
        let mut chars: Vec<char> = Vec::new();
        let mut i: usize = 0;
        while i < n
            invariant
                i <= n,
                n == input@.len(),
                chars@ == input@.take(i as int),
            decreases n - i,
        {
            let c = input.get_char(i);
            chars.push(c);
            proof {
                assert(input@.take((i + 1) as int) =~= input@.take(i as int).push(input@[i as int]));
            }
            i = i + 1;
        }
        proof {
            assert(input@.take(n as int) =~= input@);
        }
        let l = Lexer { chars, pos: 0, peeked: None };
        proof {
            assert(l.remaining_chars() =~= input@);
        }
        l
    }

    /// Scans the next token from the cursor onward.
    #[verifier::loop_isolation(false)]
    fn next_token(&mut self) -> (r: Result<Option<Token>, CalcError>)
        requires
            old(self).wf(),
            old(self).peeked is None,
        ensures
            final(self).wf(),
            final(self).peeked is None,
            match spec_next_token(old(self).remaining_chars()) {
                Ok(None) => r matches Ok(o) && o is None && final(self).remaining_chars().len()
                    == 0,
                Ok(Some((tv, rest))) => r matches Ok(o) && o matches Some(t) && t@ == tv
                    && final(self).remaining_chars() == rest,
                Err(e) => r matches Err(x) && x@ == e,
            },
    {
        loop
            invariant
                self.wf(),
                self.peeked is None,
                self.chars == old(self).chars,
                self.pos >= old(self).pos,
                spec_next_token(old(self).remaining_chars()) == spec_next_token(
                    self.remaining_chars(),
                ),
            decreases self.chars@.len() - self.pos,
        {
            if self.pos >= self.chars.len() {
                return Ok(None);
            }
            let c = self.chars[self.pos];
            proof {
                assert(self.remaining_chars()[0] == c);
            }
            if c == ' ' || c.is_whitespace() {
                proof {
                    assert(self.remaining_chars().drop_first() =~= self.chars@.skip(
                        self.pos + 1 as int,
                    ));
                }
                self.pos = self.pos + 1;
            } else if is_digit_char(c) {
                self.pos = self.pos + 1;
                return self.read_num(c);
            } else if c.is_alphabetic() {
                proof {
                    assert(self.remaining_chars().drop_first() =~= self.chars@.skip(
                        self.pos + 1 as int,
                    ));
                }
                self.pos = self.pos + 1;
                return Ok(Some(Token::Atom(Atom::Var(c))));
            } else if c == '(' {
                proof {
                    assert(self.remaining_chars().drop_first() =~= self.chars@.skip(
                        self.pos + 1 as int,
                    ));
                }
                self.pos = self.pos + 1;
                return Ok(Some(Token::Paren(Paren::Open)));
            } else if c == ')' {
                proof {
                    assert(self.remaining_chars().drop_first() =~= self.chars@.skip(
                        self.pos + 1 as int,
                    ));
                }
                self.pos = self.pos + 1;
                return Ok(Some(Token::Paren(Paren::Close)));
            } else {
                match Operation::from_char(c) {
                    Ok(op) => {
                        proof {
                            assert(self.remaining_chars().drop_first() =~= self.chars@.skip(
                                self.pos + 1 as int,
                            ));
                        }
                        self.pos = self.pos + 1;
                        return Ok(Some(Token::Op(op)));
                    },
                    Err(e) => {
                        return Err(e);
                    },
                }
            }
        }
    }

    /// Whether the cursor stands on a character that continues a
    /// number: a digit or a dot.
    fn scan_more(&self) -> (r: bool)
        requires
            self.wf(),
        ensures
            r == (self.pos < self.chars@.len() && (is_digit(self.chars@[self.pos as int])
                || self.chars@[self.pos as int] == '.')),
    {
        if self.pos < self.chars.len() {
            let c = self.chars[self.pos];
            is_digit_char(c) || c == '.'
        } else {
            false
        }
    }

    /// Scans the rest of a number token whose first digit, already
    /// consumed, was `first`.
    #[verifier::loop_isolation(false)]
    fn read_num(&mut self, first: char) -> (r: Result<Option<Token>, CalcError>)
        requires
            old(self).wf(),
            old(self).peeked is None,
            old(self).pos >= 1,
            old(self).chars@[old(self).pos - 1] == first,
            is_digit(first),
            first != ' ',
            !is_space(first),
        ensures
            final(self).wf(),
            final(self).peeked is None,
            ({
                let s = old(self).chars@.skip(old(self).pos - 1);
                match spec_next_token(s) {
                    Ok(None) => false,
                    Ok(Some((tv, rest))) => r matches Ok(o) && o matches Some(t) && t@ == tv
                        && final(self).remaining_chars() == rest,
                    Err(e) => r matches Err(x) && x@ == e,
                }
            }),
    {
        let ghost start = old(self).pos - 1;
        let ghost s = old(self).chars@.skip(start);
        let mut buf = String::new();
        buf.push(first);
        let mut dots: usize = 0;
        proof {
            assert(buf@ =~= self.chars@.subrange(start, self.pos as int));
            assert(buf@[0] == first);
            assert(first != '.');
            assert(dot_count(buf@) == 0) by {
                assert(buf@[0] == first);
                assert(first != '.');
                assert(buf@.drop_first() =~= Seq::<char>::empty());
                assert(dot_count(Seq::<char>::empty()) == 0);
            }
        }
        while self.scan_more()
            invariant
                self.wf(),
                self.peeked is None,
                self.chars == old(self).chars,
                self.pos > start,
                buf@ == self.chars@.subrange(start, self.pos as int),
                forall|j: int|
                    start < j < self.pos ==> is_digit(self.chars@[j]) || self.chars@[j] == '.',
                dots == dot_count(buf@),
                dots <= buf@.len(),
            decreases self.chars@.len() - self.pos,
        {
            let n = self.chars.len();
            proof {
                assert(dots <= self.pos - start < n);
            }
            let c = self.chars[self.pos];
            buf.push(c);
            if c == '.' {
                dots = dots + 1;
            }
            proof {
                lemma_dot_count_push(self.chars@.subrange(start, self.pos as int), c);
                assert(self.chars@.subrange(start, self.pos as int + 1) =~= self.chars@.subrange(
                    start,
                    self.pos as int,
                ).push(self.chars@[self.pos as int]));
            }
            self.pos = self.pos + 1;
        }
        proof {
            let k = self.pos - start;
            assert(s[0] == first);
            assert(s.drop_first() =~= old(self).chars@.skip(start + 1));
            assert forall|j: int| 0 <= j < k - 1 implies is_digit(s.drop_first()[j])
                || s.drop_first()[j] == '.' by {
                assert(s.drop_first()[j] == self.chars@[start + 1 + j]);
            }
            if start + k < self.chars@.len() {
                assert(s.drop_first()[k - 1] == self.chars@[self.pos as int]);
            }
            lemma_numtail_len(s.drop_first(), k - 1);
            assert(s.take(k) =~= buf@);
            assert(s.skip(k) =~= self.chars@.skip(self.pos as int));
        }
        if dots <= 1 {
            Ok(Some(Token::Atom(Atom::Number(buf))))
        } else {
            Err(CalcError::MalformedNumber(buf))
        }
    }

    /// The next token, without consuming it; scanning happens at most
    /// once. An error is returned when the very next token is bad.
    pub fn peek(&mut self) -> (r: Result<Option<Token>, CalcError>)
        requires
            old(self).wf(),
        ensures
            final(self).wf(),
            match r {
                Ok(o) => {
                    &&& final(self).stream() == old(self).stream()
                    &&& final(self).head() == old(self).head()
                    &&& final(self).measure() <= old(self).measure()
                    &&& match o {
                        Some(t) => old(self).head() == Ok::<Option<TokenView>, ErrorView>(
                            Some(t@),
                        ),
                        None => old(self).head() == Ok::<Option<TokenView>, ErrorView>(None),
                    }
                },
                Err(e) => old(self).head() == Err::<Option<TokenView>, ErrorView>(e@)
                    && old(self).stream() == Err::<Seq<TokenView>, ErrorView>(e@),
            },
    {
        if self.peeked.is_none() {
            proof {
                lemma_next_token_shrinks(self.remaining_chars());
            }
            let t = self.next_token()?;
            self.peeked = t;
        }
        match &self.peeked {
            Some(t) => Ok(Some(dup_token(t))),
            None => Ok(None),
        }
    }

    /// The next token, consuming it: the peeked token if one is held,
    /// else freshly scanned. `None` signals the end of input and is
    /// never an error.
    pub fn next(&mut self) -> (r: Result<Option<Token>, CalcError>)
        requires
            old(self).wf(),
        ensures
            final(self).wf(),
            match r {
                Ok(o) => match o {
                    Some(t) => {
                        &&& old(self).head() == Ok::<Option<TokenView>, ErrorView>(Some(t@))
                        &&& final(self).measure() < old(self).measure()
                        &&& match old(self).stream() {
                            Ok(ts) => ts.len() > 0 && ts[0] == t@ && final(self).stream() == Ok::<
                                Seq<TokenView>,
                                ErrorView,
                            >(ts.drop_first()),
                            Err(e) => final(self).stream() == Err::<Seq<TokenView>, ErrorView>(e),
                        }
                    },
                    None => {
                        &&& old(self).head() == Ok::<Option<TokenView>, ErrorView>(None)
                        &&& old(self).stream() == Ok::<Seq<TokenView>, ErrorView>(Seq::empty())
                        &&& final(self).stream() == Ok::<Seq<TokenView>, ErrorView>(Seq::empty())
                    },
                },
                Err(e) => old(self).head() == Err::<Option<TokenView>, ErrorView>(e@)
                    && old(self).stream() == Err::<Seq<TokenView>, ErrorView>(e@),
            },
    {
        let taken = self.peeked.take();
        match taken {
            Some(t) => {
                proof {
                    if let Ok(ts0) = spec_tokens(self.remaining_chars()) {
                        assert((seq![t@] + ts0).drop_first() =~= ts0);
                    }
                }
                Ok(Some(t))
            },
            None => {
                let r = self.next_token();
                proof {
                    lemma_next_token_shrinks(old(self).remaining_chars());
                    if let Ok(Some(ref tk)) = r {
                        if let Ok(ts1) = spec_tokens(self.remaining_chars()) {
                            assert((seq![tk@] + ts1).drop_first() =~= ts1);
                        }
                    }
                }
                r
            },
        }
    }
}

/// A prefix of digits and dots, ended by the end of the sequence or a
/// character of another kind, is exactly what [`numtail_len`] counts.
proof fn lemma_numtail_len(t: Seq<char>, k: int)
    requires
        0 <= k <= t.len(),
        forall|j: int| 0 <= j < k ==> is_digit(t[j]) || t[j] == '.',
        k == t.len() || !(is_digit(t[k]) || t[k] == '.'),
    ensures
        numtail_len(t) == k,
    decreases k,
{
    if k > 0 {
        assert(is_digit(t[0]) || t[0] == '.');
        assert forall|j: int| 0 <= j < k - 1 implies is_digit(t.drop_first()[j])
            || t.drop_first()[j] == '.' by {
            assert(t.drop_first()[j] == t[j + 1]);
        }
        lemma_numtail_len(t.drop_first(), k - 1);
    }
}

/// Tokenizes a whole line: the token sequence of `input`, or its first
/// lexical error.
pub fn tokenize(input: &str) -> (r: Result<Vec<Token>, CalcError>)
    ensures
        match spec_tokens(input@) {
            Ok(ts) => r matches Ok(v) && token_views(v@) == ts,
            Err(e) => r matches Err(x) && x@ == e,
        },
{
    let mut lexer = Lexer::new(input);
    let mut toks: Vec<Token> = Vec::new();
    proof {
        if let Ok(ts) = spec_tokens(input@) {
            assert(ts.skip(0) =~= ts);
            assert(token_views(toks@) =~= ts.take(0));
        }
    }
    loop
        invariant
            lexer.wf(),
            match spec_tokens(input@) {
                Ok(ts) => {
                    &&& toks@.len() <= ts.len()
                    &&& lexer.stream() == Ok::<Seq<TokenView>, ErrorView>(
                        ts.skip(toks@.len() as int),
                    )
                    &&& token_views(toks@) == ts.take(toks@.len() as int)
                },
                Err(e) => lexer.stream() == Err::<Seq<TokenView>, ErrorView>(e),
            },
        decreases lexer.measure(),
    {
        let r = lexer.next();
        match r {
            Ok(Some(t)) => {
                proof {
                    if let Ok(ts) = spec_tokens(input@) {
                        let k = toks@.len() as int;
                        assert(ts.skip(k).len() > 0);
                        assert(ts.skip(k)[0] == ts[k]);
                        assert(ts.skip(k).drop_first() =~= ts.skip(k + 1));
                        assert(token_views(toks@.push(t)) =~= ts.take(k + 1));
                    }
                }
                toks.push(t);
            },
            Ok(None) => {
                proof {
                    if let Ok(ts) = spec_tokens(input@) {
                        let k = toks@.len() as int;
                        assert(ts.skip(k) =~= Seq::<TokenView>::empty());
                        assert(ts.take(k) =~= ts);
                    }
                }
                return Ok(toks);
            },
            Err(x) => {
                return Err(x);
            },
        }
    }
}

} // verus!
