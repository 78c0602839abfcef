//! Lexical analysis: source characters to [`Token`]s.
use vstd::prelude::*;
use crate::text::{chars_of, one_char_string, is_alphabetic, is_alphanumeric, is_numeric, is_whitespace, string_from_chars, unicode_alphabetic, unicode_alphanumeric, unicode_numeric, unicode_whitespace};
use crate::token::{SpecToken, Token};

verus! {

// ---------------------------------------------------------------------------
// Specification of the token grammar
// ---------------------------------------------------------------------------

/// The first position at or after `pos` that is neither white space nor inside a
/// `#` comment. A comment runs up to, not including, the next `'\n'`.
pub open spec fn skip_blank(s: Seq<char>, pos: int, in_comment: bool) -> int
    decreases s.len() - pos, (if in_comment { 1int } else { 0int }),
{
    if pos < 0 || pos >= s.len() {
        pos
    } else if in_comment {
        if s[pos] == '\n' {
            skip_blank(s, pos, false)
        } else {
            skip_blank(s, pos + 1, true)
        }
    } else if unicode_whitespace(s[pos]) {
        skip_blank(s, pos + 1, false)
    } else if s[pos] == '#' {
        skip_blank(s, pos + 1, true)
    } else {
        pos
    }
}

/// Characters that continue an identifier.
pub open spec fn ident_char(c: char) -> bool {
    unicode_alphanumeric(c) || c == '_'
}

/// Characters that continue a numeric literal.
pub open spec fn number_char(c: char) -> bool {
    unicode_numeric(c) || c == '.'
}

/// The kinds of character runs that make up multi-character tokens.
pub enum Run {
    /// The characters of an identifier or keyword.
    Word,
    /// The characters of a numeric literal.
    Number,
    /// The characters inside a string literal: anything but `"`.
    Quoted,
}

/// Whether `c` continues a run of kind `k`.
pub open spec fn continues(k: Run, c: char) -> bool {
    match k {
        Run::Word => ident_char(c),
        Run::Number => number_char(c),
        Run::Quoted => c != '"',
    }
}

/// The end of the longest run of kind `k` that starts at `pos`.
pub open spec fn span_end(s: Seq<char>, pos: int, p: Run) -> int
    decreases s.len() - pos,
{
    if 0 <= pos < s.len() && continues(p, s[pos]) {
        span_end(s, pos + 1, p)
    } else {
        pos
    }
}

/// Keywords are recognised in upper case or in lower case; any other word is an identifier.
pub open spec fn word_token(w: Seq<char>) -> SpecToken {
    if w == seq!['C', 'O', 'N', 'N', 'E', 'C', 'T'] || w == seq!['c', 'o', 'n', 'n', 'e', 'c', 't'] {
        SpecToken::Connect
    } else if w == seq!['A', 'D', 'D'] || w == seq!['a', 'd', 'd'] {
        SpecToken::Add
    } else if w == seq!['L', 'I', 'N', 'K'] || w == seq!['l', 'i', 'n', 'k'] {
        SpecToken::Link
    } else if w == seq!['G', 'E', 'T'] || w == seq!['g', 'e', 't'] {
        SpecToken::Get
    } else if w == seq!['D', 'E', 'T', 'A', 'C', 'H'] || w == seq!['d', 'e', 't', 'a', 'c', 'h'] {
        SpecToken::Detach
    } else {
        SpecToken::Ident(w)
    }
}

/// The token that single punctuation character `c` stands for, when it stands alone.
pub open spec fn single_char_token(c: char) -> Option<SpecToken> {
    if c == '.' {
        Some(SpecToken::Dot)
    } else if c == '!' {
        Some(SpecToken::Not)
    } else if c == '(' {
        Some(SpecToken::OpenParen)
    } else if c == ')' {
        Some(SpecToken::CloseParen)
    } else if c == '[' {
        Some(SpecToken::OpenBracket)
    } else if c == '{' {
        Some(SpecToken::OpenBrace)
    } else if c == '}' {
        Some(SpecToken::CloseBrace)
    } else if c == ',' {
        Some(SpecToken::Comma)
    } else if c == '*' {
        Some(SpecToken::Star)
    } else if c == '?' {
        Some(SpecToken::Question)
    } else if c == '|' {
        Some(SpecToken::Pipe)
    } else if c == '>' {
        Some(SpecToken::GreaterThan)
    } else if c == '<' {
        Some(SpecToken::LessThan)
    } else if c == '=' {
        Some(SpecToken::Equal)
    } else {
        None
    }
}

/// The character at `i`, if there is one.
pub open spec fn char_at(s: Seq<char>, i: int) -> Option<char> {
    if 0 <= i < s.len() {
        Some(s[i])
    } else {
        None
    }
}

/// The token that starts at `p` (a position that holds no blank) and the position after it.
/// `None` means the character at `p` starts no token and is skipped.
pub open spec fn token_at(s: Seq<char>, p: int) -> Option<(SpecToken, int)>
    recommends
        0 <= p < s.len(),
{
    let c = s[p];
    if c == ':' {
        if char_at(s, p + 1) == Some(':') {
            Some((SpecToken::DoubleColon, p + 2))
        } else {
            Some((SpecToken::Colon, p + 1))
        }
    } else if c == ']' {
        if char_at(s, p + 1) == Some('-') && char_at(s, p + 2) == Some('>') {
            Some((SpecToken::Arrow, p + 3))
        } else {
            Some((SpecToken::CloseBracket, p + 1))
        }
    } else if c == '-' {
        if char_at(s, p + 1) == Some('[') {
            Some((SpecToken::StartEdge, p + 2))
        } else if char_at(s, p + 1) == Some('>') {
            Some((SpecToken::Arrow, p + 2))
        } else {
            Some((SpecToken::Ident(seq!['-']), p + 1))
        }
    } else if c == '"' {
        let e = span_end(s, p + 1, Run::Quoted);
        Some((SpecToken::Str(s.subrange(p + 1, e)), e + 1))
    } else if single_char_token(c) is Some {
        Some((single_char_token(c)->0, p + 1))
    } else if unicode_alphabetic(c) || c == '_' {
        let e = span_end(s, p, Run::Word);
        Some((word_token(s.subrange(p, e)), e))
    } else if unicode_numeric(c) {
        let e = span_end(s, p, Run::Number);
        Some((SpecToken::Float(s.subrange(p, e)), e))
    } else {
        None
    }
}

/// The next token at or after `pos` and the position just after it; `None` at the end of input.
pub open spec fn next_token_from(s: Seq<char>, pos: int) -> Option<(SpecToken, int)>
    decreases s.len() - pos,
{
    let p = skip_blank(s, pos, false);
    if p < 0 || p >= s.len() {
        None
    } else {
        match token_at(s, p) {
            Some(r) => Some(r),
            None => {
                proof {
                    lemma_skip_blank_bounds(s, pos, false);
                }
                next_token_from(s, p + 1)
            },
        }
    }
}

/// All tokens from `pos` to the end of input.
pub open spec fn tokens_from(s: Seq<char>, pos: int) -> Seq<SpecToken>
    decreases s.len() + 1 - pos,
{
    match next_token_from(s, pos) {
        None => Seq::empty(),
        Some((t, q)) => {
            proof {
                lemma_next_token_advances(s, pos);
            }
            seq![t] + tokens_from(s, q)
        },
    }
}

// ---------------------------------------------------------------------------
// Lemmas
// ---------------------------------------------------------------------------

pub proof fn lemma_skip_blank_bounds(s: Seq<char>, pos: int, in_comment: bool)
    ensures
        skip_blank(s, pos, in_comment) >= pos,
        pos <= s.len() ==> skip_blank(s, pos, in_comment) <= s.len(),
        pos > s.len() ==> skip_blank(s, pos, in_comment) == pos,
    decreases s.len() - pos, (if in_comment { 1int } else { 0int }),
{
    if pos < 0 || pos >= s.len() {
    } else if in_comment {
        if s[pos] == '\n' {
            lemma_skip_blank_bounds(s, pos, false);
        } else {
            lemma_skip_blank_bounds(s, pos + 1, true);
        }
    } else if unicode_whitespace(s[pos]) {
        lemma_skip_blank_bounds(s, pos + 1, false);
    } else if s[pos] == '#' {
        lemma_skip_blank_bounds(s, pos + 1, true);
    }
}

pub proof fn lemma_span_end_bounds(s: Seq<char>, pos: int, p: Run)
    requires
        0 <= pos <= s.len(),
    ensures
        pos <= span_end(s, pos, p) <= s.len(),
        forall|i: int| pos <= i < span_end(s, pos, p) ==> continues(p, #[trigger] s[i]),
        span_end(s, pos, p) < s.len() ==> !continues(p, s[span_end(s, pos, p)]),
    decreases s.len() - pos,
{
    if pos < s.len() && continues(p, s[pos]) {
        lemma_span_end_bounds(s, pos + 1, p);
    }
}

/// Every token consumes at least one character, and lexing never runs more than one
/// position past the end of input (an unterminated string ends there).
pub proof fn lemma_next_token_advances(s: Seq<char>, pos: int)
    requires
        0 <= pos,
    ensures
        next_token_from(s, pos) matches Some((_, q)) ==> pos < q <= s.len() + 1,
    decreases s.len() - pos,
{
    let p = skip_blank(s, pos, false);
    lemma_skip_blank_bounds(s, pos, false);
    if p < 0 || p >= s.len() {
    } else {
        lemma_span_end_bounds(s, p + 1, Run::Quoted);
        lemma_span_end_bounds(s, p, Run::Word);
        lemma_span_end_bounds(s, p, Run::Number);
        if token_at(s, p) is None {
            lemma_next_token_advances(s, p + 1);
        }
    }
}

/// Whether `c` starts a token: punctuation the language knows, a quote, a letter, `_` or a
/// digit. Any other character that is not blank is skipped.
pub open spec fn starts_token(c: char) -> bool {
    c == ':' || c == ']' || c == '-' || c == '"' || single_char_token(c) is Some
        || unicode_alphabetic(c) || c == '_' || unicode_numeric(c)
}

/// Whether everything from `pos` on is white space, `#` comments (up to the next `'\n'`) and
/// characters that start no token (`in_comment`: whether `pos` lies inside a comment).
pub open spec fn only_ignored(s: Seq<char>, pos: int, in_comment: bool) -> bool
    decreases s.len() - pos, (if in_comment { 1int } else { 0int }),
{
    if pos < 0 || pos >= s.len() {
        true
    } else if in_comment {
        if s[pos] == '\n' {
            only_ignored(s, pos, false)
        } else {
            only_ignored(s, pos + 1, true)
        }
    } else if unicode_whitespace(s[pos]) {
        only_ignored(s, pos + 1, false)
    } else if s[pos] == '#' {
        only_ignored(s, pos + 1, true)
    } else if starts_token(s[pos]) {
        false
    } else {
        only_ignored(s, pos + 1, false)
    }
}

proof fn lemma_only_ignored_skip(s: Seq<char>, pos: int, in_comment: bool)
    requires
        0 <= pos,
    ensures
        only_ignored(s, pos, in_comment) == ({
            let p = skip_blank(s, pos, in_comment);
            p >= s.len() || (!starts_token(s[p]) && only_ignored(s, p + 1, false))
        }),
    decreases s.len() - pos, (if in_comment { 1int } else { 0int }),
{
    if pos >= s.len() {
    } else if in_comment {
        if s[pos] == '\n' {
            lemma_only_ignored_skip(s, pos, false);
        } else {
            lemma_only_ignored_skip(s, pos + 1, true);
        }
    } else if unicode_whitespace(s[pos]) {
        lemma_only_ignored_skip(s, pos + 1, false);
    } else if s[pos] == '#' {
        lemma_only_ignored_skip(s, pos + 1, true);
    }
}

/// The lexer has no token left exactly when the rest of the input is white space, comments
/// and characters that start no token.
pub proof fn law_end_of_tokens(s: Seq<char>, pos: int)
    requires
        0 <= pos,
    ensures
        next_token_from(s, pos) is None <==> only_ignored(s, pos, false),
    decreases s.len() - pos,
{
    lemma_only_ignored_skip(s, pos, false);
    lemma_skip_blank_bounds(s, pos, false);
    let p = skip_blank(s, pos, false);
    if p < s.len() && token_at(s, p) is None {
        law_end_of_tokens(s, p + 1);
    }
}

/// Once the lexer has no token left, it has none at the position it then stands at either.
pub proof fn law_end_is_final(s: Seq<char>, pos: int)
    requires
        0 <= pos,
        next_token_from(s, pos) is None,
    ensures
        next_token_from(s, if pos < s.len() { s.len() as int } else { pos }) is None,
{
}

/// There are at most as many tokens left as characters left.
pub proof fn law_token_count(s: Seq<char>, pos: int)
    requires
        0 <= pos,
    ensures
        tokens_from(s, pos).len() <= (if pos < s.len() { s.len() - pos } else { 0 }),
    decreases s.len() + 1 - pos,
{
    lemma_next_token_advances(s, pos);
    lemma_skip_blank_bounds(s, pos, false);
    if let Some((t, q)) = next_token_from(s, pos) {
        law_token_count(s, q);
    }
}

// ---------------------------------------------------------------------------
// Executable lexer
// ---------------------------------------------------------------------------


/// Whether two character sequences are equal.
fn same_chars(a: &[char], b: &[char]) -> (r: bool)
    ensures
        r == (a@ == b@),
{
    if a.len() != b.len() {
        return false;
    }
    let mut i: usize = 0;
    while i < a.len()
        invariant
            a@.len() == b@.len(),
            i <= a@.len(),
            forall|j: int| 0 <= j < i ==> a@[j] == b@[j],
        decreases a@.len() - i,
    {
        if a[i] != b[i] {
            return false;
        }
        i += 1;
    }
    proof {
        assert(a@ =~= b@);
    }
    true
}

/// The token for a word read as an identifier: a keyword, or else `Ident`.
fn word_token_exec(w: &Vec<char>) -> (t: Token)
    ensures
        t@ == word_token(w@),
{
    let w = w.as_slice();
    if same_chars(w, &['C', 'O', 'N', 'N', 'E', 'C', 'T']) || same_chars(w, &['c', 'o', 'n', 'n', 'e', 'c', 't']) {
        Token::Connect
    } else if same_chars(w, &['A', 'D', 'D']) || same_chars(w, &['a', 'd', 'd']) {
        Token::Add
    } else if same_chars(w, &['L', 'I', 'N', 'K']) || same_chars(w, &['l', 'i', 'n', 'k']) {
        Token::Link
    } else if same_chars(w, &['G', 'E', 'T']) || same_chars(w, &['g', 'e', 't']) {
        Token::Get
    } else if same_chars(w, &['D', 'E', 'T', 'A', 'C', 'H']) || same_chars(w, &['d', 'e', 't', 'a', 'c', 'h']) {
        Token::Detach
    } else {
        Token::Ident(string_from_chars(w))
    }
}

/// The token that a lone punctuation character stands for.
fn single_char_token_exec(c: char) -> (t: Option<Token>)
    ensures
        t.deep_view() == single_char_token(c),
{
    match c {
        '.' => Some(Token::Dot),
        '!' => Some(Token::Not),
        '(' => Some(Token::OpenParen),
        ')' => Some(Token::CloseParen),
        '[' => Some(Token::OpenBracket),
        '{' => Some(Token::OpenBrace),
        '}' => Some(Token::CloseBrace),
        ',' => Some(Token::Comma),
        '*' => Some(Token::Star),
        '?' => Some(Token::Question),
        '|' => Some(Token::Pipe),
        '>' => Some(Token::GreaterThan),
        '<' => Some(Token::LessThan),
        '=' => Some(Token::Equal),
        _ => None,
    }
}

/// A cursor over the characters of a source text.
pub struct Lexer {
    input: Vec<char>,
    position: usize,
}

impl Lexer {
    /// The characters being lexed.
    pub closed spec fn source(&self) -> Seq<char> {
        self.input@
    }

    /// The current position in [`Lexer::source`].
    pub closed spec fn pos(&self) -> int {
        self.position as int
    }

    /// The lexer's invariant: the position stays at most one past the end of input.
    pub closed spec fn wf(&self) -> bool {
        &&& self.input@.len() < usize::MAX
        &&& self.position <= self.input@.len() + 1
    }

    /// A well-formed lexer stands at a position from the start of its input to one past its end.
    pub proof fn lemma_pos_bounds(&self)
        requires
            self.wf(),
        ensures
            0 <= self.pos() <= self.source().len() + 1,
            self.source().len() < usize::MAX,
    {
    }

    /// A lexer at the start of `input`.
    pub fn new(input: &str) -> (l: Self)
        requires
            input@.len() < usize::MAX,
        ensures
            l.wf(),
            l.source() == input@,
            l.pos() == 0,
    {
        Lexer { input: chars_of(input), position: 0 }
    }


    /// The character just after the current one, if any.
    fn peek_char(&self) -> (r: Option<char>)
        requires
            self.wf(),
            self.position < self.input@.len(),
        ensures
            r == char_at(self.input@, self.position + 1),
    {
        if self.position + 1 >= self.input.len() {
            None
        } else {
            Some(self.input[self.position + 1])
        }
    }

    /// The character two places after the current one, if any.
    fn peek_char_2(&self) -> (r: Option<char>)
        requires
            self.wf(),
            self.position < self.input@.len(),
        ensures
            r == char_at(self.input@, self.position + 2),
    {
        if self.position + 2 >= self.input.len() {
            None
        } else {
            Some(self.input[self.position + 2])
        }
    }

    /// Reads an identifier or keyword starting at the current position.
    fn read_identifier(&mut self) -> (w: Vec<char>)
        requires
            old(self).wf(),
            old(self).position <= old(self).input@.len(),
        ensures
            final(self).input@ == old(self).input@,
            final(self).wf(),
            final(self).position == span_end(old(self).input@, old(self).position as int, Run::Word),
            w@ == old(self).input@.subrange(old(self).position as int, final(self).position as int),
    {
        let ghost s = self.input@;
        let ghost start = self.position as int;
        let mut w: Vec<char> = Vec::new();
        while self.position < self.input.len() && (is_alphanumeric(self.input[self.position])
            || self.input[self.position] == '_')
            invariant
                self.input@ == s,
                s.len() < usize::MAX,
                0 <= start <= self.position <= s.len(),
                span_end(s, self.position as int, Run::Word) == span_end(s, start, Run::Word),
                w@ == s.subrange(start, self.position as int),
            decreases s.len() - self.position,
        {
            let ghost prev = w@;
            let c = self.input[self.position];
            w.push(c);
            self.position += 1;
            proof {
                assert(s.subrange(start, self.position as int) =~= s.subrange(start, self.position - 1).push(c));
            }
        }
        w
    }

    /// Reads a numeric literal starting at the current position.
    fn read_number(&mut self) -> (w: Vec<char>)
        requires
            old(self).wf(),
            old(self).position <= old(self).input@.len(),
        ensures
            final(self).input@ == old(self).input@,
            final(self).wf(),
            final(self).position == span_end(old(self).input@, old(self).position as int, Run::Number),
            w@ == old(self).input@.subrange(old(self).position as int, final(self).position as int),
    {
        let ghost s = self.input@;
        let ghost start = self.position as int;
        let mut w: Vec<char> = Vec::new();
        while self.position < self.input.len() && (is_numeric(self.input[self.position])
            || self.input[self.position] == '.')
            invariant
                self.input@ == s,
                s.len() < usize::MAX,
                0 <= start <= self.position <= s.len(),
                span_end(s, self.position as int, Run::Number) == span_end(s, start, Run::Number),
                w@ == s.subrange(start, self.position as int),
            decreases s.len() - self.position,
        {
            let ghost prev = w@;
            let c = self.input[self.position];
            w.push(c);
            self.position += 1;
            proof {
                assert(s.subrange(start, self.position as int) =~= s.subrange(start, self.position - 1).push(c));
            }
        }
        w
    }

    /// Reads a string literal whose opening quote is at the current position; the
    /// position ends just past the closing quote (or one past the end of input).
    fn read_string(&mut self) -> (w: Vec<char>)
        requires
            old(self).wf(),
            old(self).position < old(self).input@.len(),
        ensures
            final(self).input@ == old(self).input@,
            final(self).wf(),
            final(self).position == span_end(old(self).input@, old(self).position + 1, Run::Quoted) + 1,
            w@ == old(self).input@.subrange(old(self).position + 1, final(self).position - 1),
    {
        let ghost s = self.input@;
        self.position += 1;
        let ghost start = self.position as int;
        let mut w: Vec<char> = Vec::new();
        while self.position < self.input.len() && self.input[self.position] != '"'
            invariant
                self.input@ == s,
                s.len() < usize::MAX,
                0 <= start <= self.position <= s.len(),
                span_end(s, self.position as int, Run::Quoted) == span_end(s, start, Run::Quoted),
                w@ == s.subrange(start, self.position as int),
            decreases s.len() - self.position,
        {
            let ghost prev = w@;
            let c = self.input[self.position];
            w.push(c);
            self.position += 1;
            proof {
                assert(s.subrange(start, self.position as int) =~= s.subrange(start, self.position - 1).push(c));
            }
        }
        self.position += 1;
        w
    }

    /// Skips white space and `#` comments.
    fn skip_whitespace_and_comments(&mut self)
        requires
            old(self).wf(),
        ensures
            final(self).input@ == old(self).input@,
            final(self).wf(),
            final(self).position == skip_blank(old(self).input@, old(self).position as int, false),
    {
        let ghost s = self.input@;
        let ghost target = skip_blank(s, self.position as int, false);
        while self.position < self.input.len()
            invariant
                self.input@ == s,
                s.len() < usize::MAX,
                self.position <= s.len() + 1,
                skip_blank(s, self.position as int, false) == target,
            ensures
                self.input@ == s,
                self.position <= s.len() + 1,
                self.position == target,
            decreases s.len() - self.position,
        {
            let ch = self.input[self.position];
            if is_whitespace(ch) {
                self.position += 1;
            } else if ch == '#' {
                let ghost before = self.position as int;
                self.position += 1;
                while self.position < self.input.len() && self.input[self.position] != '\n'
                    invariant
                        self.input@ == s,
                        s.len() < usize::MAX,
                        before < self.position <= s.len(),
                        skip_blank(s, self.position as int, true) == target,
                    decreases s.len() - self.position,
                {
                    self.position += 1;
                }
            } else {
                break;
            }
        }
    }

    /// The next token, or `None` at the end of input. Characters that start no token are skipped.
    pub fn next_token(&mut self) -> (r: Option<Token>)
        requires
            old(self).wf(),
        ensures
            final(self).wf(),
            final(self).source() == old(self).source(),
            match next_token_from(old(self).source(), old(self).pos()) {
                None => r is None && final(self).pos() == (if old(self).pos() < old(self).source().len() {
                    old(self).source().len() as int
                } else {
                    old(self).pos()
                }),
                Some((t, q)) => r matches Some(tok) && tok@ == t && final(self).pos() == q,
            },
        decreases old(self).source().len() + 1 - old(self).pos(),
    {
        let ghost s = self.input@;
        let ghost pos0 = self.position as int;
        self.skip_whitespace_and_comments();
        proof {
            lemma_skip_blank_bounds(s, pos0, false);
        }
        if self.position >= self.input.len() {
            return None;
        }
        let ghost p = self.position as int;
        proof {
            lemma_span_end_bounds(s, p + 1, Run::Quoted);
            lemma_span_end_bounds(s, p, Run::Word);
            lemma_span_end_bounds(s, p, Run::Number);
        }
        let ch = self.input[self.position];
        let token = if ch == ':' {
            if self.peek_char() == Some(':') {
                self.position += 2;
                Token::DoubleColon
            } else {
                self.position += 1;
                Token::Colon
            }
        } else if ch == ']' {
            if self.peek_char() == Some('-') && self.peek_char_2() == Some('>') {
                self.position += 3;
                Token::Arrow
            } else {
                self.position += 1;
                Token::CloseBracket
            }
        } else if ch == '-' {
            if self.peek_char() == Some('[') {
                self.position += 2;
                Token::StartEdge
            } else if self.peek_char() == Some('>') {
                self.position += 2;
                Token::Arrow
            } else {
                self.position += 1;
                Token::Ident(one_char_string('-'))
            }
        } else if ch == '"' {
            let w = self.read_string();
            Token::Str(string_from_chars(w.as_slice()))
        } else if let Some(t) = single_char_token_exec(ch) {
            self.position += 1;
            t
        } else if is_alphabetic(ch) || ch == '_' {
            let w = self.read_identifier();
            word_token_exec(&w)
        } else if is_numeric(ch) {
            let w = self.read_number();
            Token::Float(string_from_chars(w.as_slice()))
        } else {
            self.position += 1;
            return self.next_token();
        };
        proof {
            assert(token_at(s, p) == Some((token@, self.position as int)));
            assert(next_token_from(s, pos0) == token_at(s, p));
        }
        Some(token)
    }

    /// All remaining tokens, in order.
    pub fn get_tokens(&mut self) -> (tokens: Vec<Token>)
        requires
            old(self).wf(),
        ensures
            final(self).wf(),
            final(self).source() == old(self).source(),
            tokens.deep_view() == tokens_from(old(self).source(), old(self).pos()),
            tokens@.len() <= (if old(self).pos() < old(self).source().len() {
                old(self).source().len() - old(self).pos()
            } else {
                0
            }),
            final(self).pos() >= final(self).source().len(),
            next_token_from(final(self).source(), final(self).pos()) is None,
    {
        let mut tokens: Vec<Token> = Vec::new();
        let ghost s = self.input@;
        let ghost start = self.position as int;
        loop
            invariant_except_break
                tokens.deep_view() + tokens_from(s, self.position as int) == tokens_from(s, start),
            invariant
                self.wf(),
                self.input@ == s,
            ensures
                tokens.deep_view() == tokens_from(s, start),
                self.position >= s.len(),
                next_token_from(s, self.position as int) is None,
            decreases s.len() + 1 - self.position,
        {
            let ghost before = self.position as int;
            proof {
                lemma_next_token_advances(s, before);
            }
            match self.next_token() {
                Some(token) => {
                    proof {
                        assert(tokens_from(s, before) == seq![token@] + tokens_from(s, self.position as int));
                    }
                    let ghost prev = tokens.deep_view();
                    let ghost tv = token@;
                    tokens.push(token);
                    proof {
                        assert(tokens.deep_view() =~= prev.push(tv));
                        assert(prev.push(tv) + tokens_from(s, self.position as int) =~= prev + (seq![tv] + tokens_from(s, self.position as int)));
                    }
                },
                None => {
                    proof {
                        assert(tokens_from(s, before) == Seq::<SpecToken>::empty());
                        assert(tokens.deep_view() + Seq::<SpecToken>::empty() =~= tokens.deep_view());
                        law_end_is_final(s, before);
                    }
                    break;
                },
            }
        }
        proof {
            law_token_count(s, start);
        }
        tokens
    }
}

} // verus!
