//! The tokens of a contract line and the lexer that finds them.
//!
//! A line is cut into tokens from left to right. Blanks between tokens are
//! skipped; at each position the longest token that the grammar allows is
//! taken. A position where no token starts ends the lexing.

use crate::text::{chars_of, holds_at, string_of};
use vstd::prelude::*;

verus! {

/// The kinds of token of a contract line.
#[derive(Debug, PartialEq, Eq, Clone, Copy, Structural)]
pub enum ContractTokens {
    /// The marker `#>>>` that may open a line.
    Start,
    /// `stdin!` or `stdin?`.
    Stdin,
    /// `stdout!` or `stdout?`.
    Stdout,
    /// A word followed by `!` or `?`.
    Arg,
    /// One or two dashes, a letter, word characters, an optional `=`, then
    /// `!` or `?`.
    Flag,
    /// A run of decimal digits.
    Number,
    /// `->`.
    Arrow,
    /// `(`.
    LP,
    /// `)`.
    RP,
    /// `[`.
    LSB,
    /// `]`.
    RSB,
    /// `,`.
    Comma,
    /// A word followed by `:`.
    Name,
}

/// Names the answer of `regex_syntax::is_word_character` for a character:
/// whether Unicode counts it as a word character.
pub uninterp spec fn unicode_word(c: char) -> bool;

/// `regex_syntax::is_word_character` tells whether a character is a Unicode
/// word character. Its answer depends on the character alone. It panics only
/// in a build without the crate's `unicode-perl` feature, which this crate
/// switches on.
pub assume_specification[ regex_syntax::is_word_character ](c: char) -> (b: bool)
    ensures
        b == unicode_word(c),
;

/// The classes of character that a token is made of.
#[derive(Debug, PartialEq, Eq, Clone, Copy, Structural)]
pub enum CharClass {
    /// Space, tab, line feed, form feed and carriage return.
    Blank,
    /// Letters, digits, the underscore, and what else Unicode counts as part
    /// of a word.
    Word,
    /// The decimal digits `0` to `9`.
    Digit,
}

/// A blank: what may stand between tokens.
pub open spec fn is_blank(c: char) -> bool {
    c == ' ' || c == '\t' || c == '\n' || c == '\r' || c == '\u{c}'
}

/// A decimal digit.
pub open spec fn is_digit(c: char) -> bool {
    '0' <= c && c <= '9'
}

/// A letter of the ASCII alphabet.
pub open spec fn is_ascii_letter(c: char) -> bool {
    ('a' <= c && c <= 'z') || ('A' <= c && c <= 'Z')
}

/// A word character: in ASCII a letter, a digit or the underscore; beyond
/// ASCII what Unicode counts as one.
pub open spec fn is_word(c: char) -> bool {
    if c <= '\u{7f}' {
        is_ascii_letter(c) || is_digit(c) || c == '_'
    } else {
        unicode_word(c)
    }
}

/// The mark of what is required (`!`) or of what is optional (`?`).
pub open spec fn is_sigil(c: char) -> bool {
    c == '!' || c == '?'
}

impl CharClass {
    /// Whether `c` belongs to the class.
    pub open spec fn holds(self, c: char) -> bool {
        match self {
            CharClass::Blank => is_blank(c),
            CharClass::Word => is_word(c),
            CharClass::Digit => is_digit(c),
        }
    }

    /// Whether `c` belongs to the class.
    pub fn has(self, c: char) -> (r: bool)
        ensures
            r == self.holds(c),
    {
        match self {
            CharClass::Blank => c == ' ' || c == '\t' || c == '\n' || c == '\r' || c == '\u{c}',
            CharClass::Digit => '0' <= c && c <= '9',
            CharClass::Word => {
                if c <= '\u{7f}' {
                    ('a' <= c && c <= 'z') || ('A' <= c && c <= 'Z') || ('0' <= c && c <= '9') || c
                        == '_'
                } else {
                    regex_syntax::is_word_character(c)
                }
            },
        }
    }
}

/// Where the run of characters of `class` that starts at `from` ends: the
/// first position at or after `from` that holds a character outside the
/// class, or the length of `s`.
pub open spec fn run_end(s: Seq<char>, class: CharClass, from: int) -> int
    decreases s.len() - from,
{
    if 0 <= from < s.len() && class.holds(s[from]) {
        run_end(s, class, from + 1)
    } else {
        from
    }
}

/// A run holds only characters of its class and cannot be made longer.
pub proof fn lemma_run_end(s: Seq<char>, class: CharClass, from: int)
    requires
        0 <= from <= s.len(),
    ensures
        from <= run_end(s, class, from) <= s.len(),
        forall|j: int| from <= j < run_end(s, class, from) ==> class.holds(#[trigger] s[j]),
        run_end(s, class, from) < s.len() ==> !class.holds(s[run_end(s, class, from)]),
    decreases s.len() - from,
{
    if from < s.len() && class.holds(s[from]) {
        lemma_run_end(s, class, from + 1);
    }
}

/// Whether every character of `text` belongs to `class`.
pub open spec fn all_in(text: Seq<char>, class: CharClass) -> bool {
    forall|i: int| 0 <= i < text.len() ==> class.holds(#[trigger] text[i])
}

/// A word followed by `!` or `?`.
pub open spec fn is_marked_word(text: Seq<char>) -> bool {
    text.len() >= 2 && is_sigil(text.last()) && all_in(text.drop_last(), CharClass::Word)
}

/// A flag with `dashes` dashes, with `=` before its mark where `valued`
/// says so: the dashes, an ASCII letter, word characters, the `=` if any,
/// then `!` or `?`.
pub open spec fn is_flag_text(text: Seq<char>, dashes: int, valued: bool) -> bool {
    let tail: int = if valued {
        2
    } else {
        1
    };
    &&& 1 <= dashes <= 2
    &&& text.len() >= dashes + 1 + tail
    &&& forall|i: int| 0 <= i < dashes ==> text[i] == '-'
    &&& is_ascii_letter(text[dashes])
    &&& all_in(text.subrange(dashes + 1, text.len() - tail), CharClass::Word)
    &&& valued ==> text[text.len() - 2] == '='
    &&& is_sigil(text.last())
}

/// The grammar: whether `text` is a token of `kind`.
pub open spec fn is_token(kind: ContractTokens, text: Seq<char>) -> bool {
    match kind {
        ContractTokens::Start => text == seq!['#', '>', '>', '>'],
        ContractTokens::Stdin => is_marked_word(text) && text.drop_last() == "stdin"@,
        ContractTokens::Stdout => is_marked_word(text) && text.drop_last() == "stdout"@,
        ContractTokens::Arg => is_marked_word(text),
        ContractTokens::Flag => exists|dashes: int, valued: bool|
            is_flag_text(text, dashes, valued),
        ContractTokens::Number => text.len() >= 1 && all_in(text, CharClass::Digit),
        ContractTokens::Arrow => text == seq!['-', '>'],
        ContractTokens::LP => text == seq!['('],
        ContractTokens::RP => text == seq![')'],
        ContractTokens::LSB => text == seq!['['],
        ContractTokens::RSB => text == seq![']'],
        ContractTokens::Comma => text == seq![','],
        ContractTokens::Name => text.len() >= 2 && text.last() == ':' && all_in(
            text.drop_last(),
            CharClass::Word,
        ),
    }
}

/// Whether a token of kind `first` is taken rather than one of kind `second`
/// where the same text is both: a keyword is taken rather than an argument.
pub open spec fn takes_precedence(first: ContractTokens, second: ContractTokens) -> bool {
    first == second || ((first == ContractTokens::Stdin || first == ContractTokens::Stdout)
        && second == ContractTokens::Arg)
}

/// The token that starts with the word character at `p`: a keyword, an
/// argument or a name where the word is followed by its mark, else the
/// digits that the word begins with.
pub open spec fn word_token(s: Seq<char>, p: int) -> Option<(ContractTokens, int)> {
    let r = run_end(s, CharClass::Word, p);
    if r < s.len() && is_sigil(s[r]) {
        let word = s.subrange(p, r);
        if word == "stdin"@ {
            Some((ContractTokens::Stdin, r + 1))
        } else if word == "stdout"@ {
            Some((ContractTokens::Stdout, r + 1))
        } else {
            Some((ContractTokens::Arg, r + 1))
        }
    } else if r < s.len() && s[r] == ':' {
        Some((ContractTokens::Name, r + 1))
    } else {
        let d = run_end(s, CharClass::Digit, p);
        if d > p {
            Some((ContractTokens::Number, d))
        } else {
            None
        }
    }
}

/// The flag that starts with the dash at `p`, if one does.
pub open spec fn flag_token(s: Seq<char>, p: int) -> Option<(ContractTokens, int)> {
    let q = if p + 1 < s.len() && s[p + 1] == '-' {
        p + 2
    } else {
        p + 1
    };
    if q < s.len() && is_ascii_letter(s[q]) {
        let r = run_end(s, CharClass::Word, q + 1);
        let t = if r < s.len() && s[r] == '=' {
            r + 1
        } else {
            r
        };
        if t < s.len() && is_sigil(s[t]) {
            Some((ContractTokens::Flag, t + 1))
        } else {
            None
        }
    } else {
        None
    }
}

/// The token that starts at `p`, with the position where it ends; `None`
/// where no token starts at `p`.
pub open spec fn token_at(s: Seq<char>, p: int) -> Option<(ContractTokens, int)>
    recommends
        0 <= p < s.len(),
{
    let c = s[p];
    if c == '#' {
        if p + 3 < s.len() && s[p + 1] == '>' && s[p + 2] == '>' && s[p + 3] == '>' {
            Some((ContractTokens::Start, p + 4))
        } else {
            None
        }
    } else if c == '-' {
        if p + 1 < s.len() && s[p + 1] == '>' {
            Some((ContractTokens::Arrow, p + 2))
        } else {
            flag_token(s, p)
        }
    } else if c == '(' {
        Some((ContractTokens::LP, p + 1))
    } else if c == ')' {
        Some((ContractTokens::RP, p + 1))
    } else if c == '[' {
        Some((ContractTokens::LSB, p + 1))
    } else if c == ']' {
        Some((ContractTokens::RSB, p + 1))
    } else if c == ',' {
        Some((ContractTokens::Comma, p + 1))
    } else if is_word(c) {
        word_token(s, p)
    } else {
        None
    }
}

/// A token is never empty and lies within the line.
pub proof fn lemma_token_at_bounds(s: Seq<char>, p: int)
    requires
        0 <= p < s.len(),
    ensures
        token_at(s, p) matches Some((_, end)) ==> p < end <= s.len(),
{
    lemma_run_end(s, CharClass::Word, p);
    lemma_run_end(s, CharClass::Digit, p);
    if p + 2 <= s.len() {
        lemma_run_end(s, CharClass::Word, p + 2);
    }
    if p + 3 <= s.len() {
        lemma_run_end(s, CharClass::Word, p + 3);
    }
}

/// An argument and a flag end in `!` or `?`, a name in `:`, and a number is
/// made of digits.
pub proof fn lemma_token_text(s: Seq<char>, p: int)
    requires
        0 <= p < s.len(),
    ensures
        token_at(s, p) matches Some((kind, end)) ==> {
            &&& p < end <= s.len()
            &&& (kind == ContractTokens::Arg || kind == ContractTokens::Flag || kind
                == ContractTokens::Stdin || kind == ContractTokens::Stdout) ==> is_sigil(
                s.subrange(p, end).last(),
            )
            &&& kind == ContractTokens::Name ==> s.subrange(p, end).last() == ':'
            &&& kind == ContractTokens::Number ==> forall|i: int|
                0 <= i < end - p ==> is_digit(#[trigger] s.subrange(p, end)[i])
        },
{
    lemma_token_at_bounds(s, p);
    lemma_run_end(s, CharClass::Word, p);
    lemma_run_end(s, CharClass::Digit, p);
    if p + 2 <= s.len() {
        lemma_run_end(s, CharClass::Word, p + 2);
    }
    if p + 3 <= s.len() {
        lemma_run_end(s, CharClass::Word, p + 3);
    }
}

/// A piece of text whose characters all belong to a class ends within the
/// run of that class.
pub proof fn lemma_all_in_run(s: Seq<char>, class: CharClass, from: int, stop: int)
    requires
        0 <= from <= stop <= s.len(),
        all_in(s.subrange(from, stop), class),
    ensures
        stop <= run_end(s, class, from),
{
    lemma_run_end(s, class, from);
    let end = run_end(s, class, from);
    if end < stop {
        assert(s.subrange(from, stop)[end - from] == s[end]);
    }
}

/// A word that is followed by a character outside the words ends where the
/// run of word characters ends.
proof fn lemma_word_then_mark(s: Seq<char>, from: int, stop: int)
    requires
        0 <= from < stop <= s.len(),
        all_in(s.subrange(from, stop - 1), CharClass::Word),
        !is_word(s[stop - 1]),
    ensures
        run_end(s, CharClass::Word, from) == stop - 1,
{
    lemma_all_in_run(s, CharClass::Word, from, stop - 1);
    lemma_run_end(s, CharClass::Word, from);
}

/// What `token_at` finds is a token of the grammar.
pub proof fn lemma_token_at_is_token(s: Seq<char>, p: int)
    requires
        0 <= p < s.len(),
    ensures
        token_at(s, p) matches Some((kind, end)) ==> p < end <= s.len() && is_token(
            kind,
            s.subrange(p, end),
        ),
{
    lemma_token_at_bounds(s, p);
    if let Some((kind, end)) = token_at(s, p) {
        let text = s.subrange(p, end);
        let c = s[p];
        if c == '#' {
            assert(text =~= seq!['#', '>', '>', '>']);
        } else if c == '-' {
            if p + 1 < s.len() && s[p + 1] == '>' {
                assert(text =~= seq!['-', '>']);
            } else {
                let q = if p + 1 < s.len() && s[p + 1] == '-' {
                    p + 2
                } else {
                    p + 1
                };
                let r = run_end(s, CharClass::Word, q + 1);
                lemma_run_end(s, CharClass::Word, q + 1);
                let valued = r < s.len() && s[r] == '=';
                let tail: int = if valued {
                    2
                } else {
                    1
                };
                assert(all_in(text.subrange(q - p + 1, text.len() - tail), CharClass::Word)) by {
                    assert forall|i: int|
                        0 <= i < text.subrange(q - p + 1, text.len() - tail).len() implies is_word(
                        #[trigger] text.subrange(q - p + 1, text.len() - tail)[i],
                    ) by {
                        assert(text.subrange(q - p + 1, text.len() - tail)[i] == s[q + 1 + i]);
                    }
                }
                assert(text[q - p] == s[q]);
                assert(text[0] == s[p]);
                if q == p + 2 {
                    assert(text[1] == s[p + 1]);
                }
                assert(is_flag_text(text, q - p, valued));
            }
        } else if c == '(' {
            assert(text =~= seq!['(']);
        } else if c == ')' {
            assert(text =~= seq![')']);
        } else if c == '[' {
            assert(text =~= seq!['[']);
        } else if c == ']' {
            assert(text =~= seq![']']);
        } else if c == ',' {
            assert(text =~= seq![',']);
        } else {
            let r = run_end(s, CharClass::Word, p);
            let d = run_end(s, CharClass::Digit, p);
            lemma_run_end(s, CharClass::Word, p);
            lemma_run_end(s, CharClass::Digit, p);
            if r < s.len() && (is_sigil(s[r]) || s[r] == ':') {
                assert(text.drop_last() =~= s.subrange(p, r));
                assert(all_in(text.drop_last(), CharClass::Word)) by {
                    assert forall|i: int| 0 <= i < text.drop_last().len() implies is_word(
                        #[trigger] text.drop_last()[i],
                    ) by {
                        assert(text.drop_last()[i] == s[p + i]);
                    }
                }
            } else {
                assert(all_in(text, CharClass::Digit)) by {
                    assert forall|i: int| 0 <= i < text.len() implies is_digit(
                        #[trigger] text[i],
                    ) by {
                        assert(text[i] == s[p + i]);
                    }
                }
            }
        }
    }
}

/// `token_at` takes the longest token that starts at a position: no token
/// of the grammar that starts there is longer than the one it finds; one
/// that is as long is of the same kind, or is the argument that a keyword
/// could also be read as; and where it finds none, none starts there.
pub proof fn lemma_token_at_is_longest(
    s: Seq<char>,
    p: int,
    other: ContractTokens,
    stop: int,
)
    requires
        0 <= p < stop <= s.len(),
        is_token(other, s.subrange(p, stop)),
    ensures
        token_at(s, p) matches Some((kind, end)) && (stop < end || (stop == end
            && takes_precedence(kind, other))),
{
    let text = s.subrange(p, stop);
    let c = s[p];
    assert(text[0] == c);
    assert(text.last() == s[stop - 1]);
    lemma_run_end(s, CharClass::Word, p);
    lemma_run_end(s, CharClass::Digit, p);
    match other {
        ContractTokens::Start => {
            let start = seq!['#', '>', '>', '>'];
            assert(start.len() == 4 && start[0] == '#' && start[1] == '>' && start[2] == '>'
                && start[3] == '>');
            assert(text[1] == s[p + 1] && text[2] == s[p + 2] && text[3] == s[p + 3]);
        },
        ContractTokens::Arrow => {
            let arrow = seq!['-', '>'];
            assert(arrow.len() == 2 && arrow[0] == '-' && arrow[1] == '>');
            assert(text[1] == s[p + 1]);
        },
        ContractTokens::LP => {
            assert(seq!['('].len() == 1 && seq!['('][0] == '(');
        },
        ContractTokens::RP => {
            assert(seq![')'].len() == 1 && seq![')'][0] == ')');
        },
        ContractTokens::LSB => {
            assert(seq!['['].len() == 1 && seq!['['][0] == '[');
        },
        ContractTokens::RSB => {
            assert(seq![']'].len() == 1 && seq![']'][0] == ']');
        },
        ContractTokens::Comma => {
            assert(seq![','].len() == 1 && seq![','][0] == ',');
        },
        ContractTokens::Flag => {
            let (dashes, valued) = choose|dashes: int, valued: bool|
                is_flag_text(text, dashes, valued);
            let tail: int = if valued {
                2
            } else {
                1
            };
            assert(text[1] == s[p + 1]);
            assert(text[dashes] == s[p + dashes]);
            if dashes == 2 {
                assert(text[0] == '-' && text[1] == '-');
            }
            let q = p + dashes;
            assert(s.subrange(q + 1, stop - tail) =~= text.subrange(
                dashes + 1,
                text.len() - tail,
            ));
            if valued {
                assert(text[text.len() - 2] == s[stop - 2]);
            }
            lemma_word_then_mark(s, q + 1, stop - tail + 1);
        },
        ContractTokens::Number => {
            assert(is_digit(text[0]));
            lemma_all_in_run(s, CharClass::Digit, p, stop);
            let d = run_end(s, CharClass::Digit, p);
            assert(all_in(s.subrange(p, d), CharClass::Word)) by {
                assert forall|i: int| 0 <= i < s.subrange(p, d).len() implies is_word(
                    #[trigger] s.subrange(p, d)[i],
                ) by {
                    assert(is_digit(s[p + i]));
                }
            }
            lemma_all_in_run(s, CharClass::Word, p, d);
        },
        _ => {
            reveal_strlit("stdin");
            reveal_strlit("stdout");
            assert("stdin"@.len() != "stdout"@.len());
            assert(s.subrange(p, stop - 1) =~= text.drop_last());
            assert(is_word(text.drop_last()[0]));
            assert(text.drop_last()[0] == c);
            lemma_word_then_mark(s, p, stop);
        },
    }
}

/// Where `token_at` finds no token, the grammar has none that starts there.
pub proof fn lemma_token_at_misses_nothing(
    s: Seq<char>,
    p: int,
    other: ContractTokens,
    stop: int,
)
    requires
        0 <= p < stop <= s.len(),
        token_at(s, p) is None,
    ensures
        !is_token(other, s.subrange(p, stop)),
{
    if is_token(other, s.subrange(p, stop)) {
        lemma_token_at_is_longest(s, p, other, stop);
    }
}

/// What the lexer finds when it goes on from a position.
pub enum Step {
    /// Only blanks were left.
    End,
    /// A token of this kind lies in `start..end`.
    Token { kind: ContractTokens, start: int, end: int },
    /// At `start` stands text that begins no token.
    Unrecognized { start: int },
}

/// The next step of the lexer on `s` from position `from`.
pub open spec fn step(s: Seq<char>, from: int) -> Step {
    let p = run_end(s, CharClass::Blank, from);
    if p >= s.len() {
        Step::End
    } else {
        match token_at(s, p) {
            Some((kind, end)) => Step::Token { kind, start: p, end },
            None => Step::Unrecognized { start: p },
        }
    }
}

/// The end of the run of `class` in `v` that starts at `from`.
pub(crate) fn scan_run(v: &Vec<char>, class: CharClass, from: usize) -> (end: usize)
    requires
        from <= v.len(),
    ensures
        end == run_end(v@, class, from as int),
        from <= end <= v.len(),
{
    let mut i: usize = from;
    while i < v.len() && class.has(v[i])
        invariant
            from <= i <= v.len(),
            run_end(v@, class, from as int) == run_end(v@, class, i as int),
        decreases v.len() - i,
    {
        i += 1;
    }
    i
}

/// A lexer over one contract line. It holds the line and the place of the
/// token found last.
#[derive(Debug)]
pub struct Lexer {
    source: Vec<char>,
    token_start: usize,
    token_end: usize,
}

impl ContractTokens {
    /// A lexer at the start of `line`.
    pub fn lexer(line: &str) -> (lexer: Lexer)
        ensures
            lexer.source() == line@,
            lexer.start() == 0,
            lexer.end() == 0,
    {
        Lexer { source: chars_of(line), token_start: 0, token_end: 0 }
    }
}

impl Lexer {
    /// The token found last lies within the line.
    #[verifier::type_invariant]
    spec fn in_bounds(self) -> bool {
        self.token_start <= self.token_end <= self.source.len()
    }

    /// The characters of the line.
    pub closed spec fn source(&self) -> Seq<char> {
        self.source@
    }

    /// Where the token found last starts.
    pub closed spec fn start(&self) -> int {
        self.token_start as int
    }

    /// Where the token found last ends, and the search for the next begins.
    pub closed spec fn end(&self) -> int {
        self.token_end as int
    }

    /// The text of the token found last.
    pub open spec fn token_text(&self) -> Seq<char> {
        self.source().subrange(self.start(), self.end())
    }

    /// The token kind and end position for a word that starts at `p`.
    fn word(&self, p: usize) -> (r: Option<(ContractTokens, usize)>)
        requires
            p < self.source().len(),
        ensures
            match word_token(self.source(), p as int) {
                Some((kind, end)) => r matches Some((k, e)) && k == kind && e == end && p < e
                    <= self.source().len(),
                None => r is None,
            },
    {
        let r = scan_run(&self.source, CharClass::Word, p);
        if r < self.source.len() && (self.source[r] == '!' || self.source[r] == '?') {
            let stdin = chars_of("stdin");
            let stdout = chars_of("stdout");
            if r - p == stdin.len() && holds_at(&self.source, p, &stdin) {
                Some((ContractTokens::Stdin, r + 1))
            } else if r - p == stdout.len() && holds_at(&self.source, p, &stdout) {
                Some((ContractTokens::Stdout, r + 1))
            } else {
                Some((ContractTokens::Arg, r + 1))
            }
        } else if r < self.source.len() && self.source[r] == ':' {
            Some((ContractTokens::Name, r + 1))
        } else {
            let d = scan_run(&self.source, CharClass::Digit, p);
            if d > p {
                Some((ContractTokens::Number, d))
            } else {
                None
            }
        }
    }

    /// The token kind and end position for a flag that starts at `p`.
    fn flag(&self, p: usize) -> (r: Option<(ContractTokens, usize)>)
        requires
            p < self.source().len(),
        ensures
            match flag_token(self.source(), p as int) {
                Some((kind, end)) => r matches Some((k, e)) && k == kind && e == end && p < e
                    <= self.source().len(),
                None => r is None,
            },
    {
        let n = self.source.len();
        let q: usize = if p + 1 < n && self.source[p + 1] == '-' {
            p + 2
        } else {
            p + 1
        };
        if q < n {
            let c = self.source[q];
            if ('a' <= c && c <= 'z') || ('A' <= c && c <= 'Z') {
                let r = scan_run(&self.source, CharClass::Word, q + 1);
                let t: usize = if r < n && self.source[r] == '=' {
                    r + 1
                } else {
                    r
                };
                if t < n && (self.source[t] == '!' || self.source[t] == '?') {
                    return Some((ContractTokens::Flag, t + 1));
                }
            }
        }
        None
    }

    /// The token kind and end position for the token that starts at `p`.
    fn token(&self, p: usize) -> (r: Option<(ContractTokens, usize)>)
        requires
            p < self.source().len(),
        ensures
            match token_at(self.source(), p as int) {
                Some((kind, end)) => r matches Some((k, e)) && k == kind && e == end && p < e
                    <= self.source().len(),
                None => r is None,
            },
    {
        let n = self.source.len();
        let c = self.source[p];
        if c == '#' {
            if n - p > 3 && self.source[p + 1] == '>' && self.source[p + 2] == '>'
                && self.source[p + 3] == '>' {
                Some((ContractTokens::Start, p + 4))
            } else {
                None
            }
        } else if c == '-' {
            if p + 1 < n && self.source[p + 1] == '>' {
                Some((ContractTokens::Arrow, p + 2))
            } else {
                self.flag(p)
            }
        } else if c == '(' {
            Some((ContractTokens::LP, p + 1))
        } else if c == ')' {
            Some((ContractTokens::RP, p + 1))
        } else if c == '[' {
            Some((ContractTokens::LSB, p + 1))
        } else if c == ']' {
            Some((ContractTokens::RSB, p + 1))
        } else if c == ',' {
            Some((ContractTokens::Comma, p + 1))
        } else if CharClass::Word.has(c) {
            self.word(p)
        } else {
            None
        }
    }

    /// Finds the next token. `None` when only blanks are left; an error when
    /// the text that follows begins no token. After an error the lexer stands
    /// at the end of the line: the text from the offending position on is
    /// what `slice` then returns, and every later call returns `None`.
    pub fn next(&mut self) -> (r: Option<Result<ContractTokens, ()>>)
        ensures
            final(self).source() == old(self).source(),
            old(self).end() <= final(self).start() <= final(self).end(),
            final(self).end() <= final(self).source().len(),
            match step(old(self).source(), old(self).end()) {
                Step::End => {
                    &&& r is None
                    &&& final(self).start() == old(self).source().len()
                    &&& final(self).end() == old(self).source().len()
                },
                Step::Token { kind, start, end } => {
                    &&& r == Some(Ok::<ContractTokens, ()>(kind))
                    &&& final(self).start() == start
                    &&& final(self).end() == end
                },
                Step::Unrecognized { start } => {
                    &&& r == Some(Err::<ContractTokens, ()>(()))
                    &&& final(self).start() == start
                    &&& final(self).end() == old(self).source().len()
                },
            },
    {
        proof {
            use_type_invariant(&*self);
        }
        let n = self.source.len();
        let p = scan_run(&self.source, CharClass::Blank, self.token_end);
        if p >= n {
            self.token_end = n;
            self.token_start = n;
            return None;
        }
        match self.token(p) {
            Some((kind, end)) => {
                self.token_end = end;
                self.token_start = p;
                Some(Ok(kind))
            },
            None => {
                self.token_end = n;
                self.token_start = p;
                Some(Err(()))
            },
        }
    }

    /// The text of the token found last.
    pub fn slice(&self) -> (text: String)
        ensures
            text@ == self.token_text(),
    {
        proof {
            use_type_invariant(self);
        }
        string_of(&self.source, self.token_start, self.token_end)
    }
}

} // verus!
