//! Cutting definition text into tokens: words (identifiers, keywords,
//! numbers) and punctuation characters, as a Rust tokenizer would, with
//! `(`, `[` and `{` required to close in order.
use vstd::prelude::*;
use vstd::string::StrSliceExecFns;

verus! {

/// Why a workflow definition could not be read.
#[derive(Debug, Clone, Copy, PartialEq, Eq, Structural)]
pub enum DefError {
    /// A character that no token can start with.
    UnexpectedChar,
    /// A `(`, `[` or `{` without its closing match, or a stray closer.
    Unbalanced,
    /// A particular punctuation, group or keyword was expected.
    ExpectedToken,
    /// An identifier was expected.
    ExpectedIdent,
    /// A type was expected.
    ExpectedType,
    /// A guard expression was expected after `if`.
    ExpectedExpr,
    /// Tokens were left over inside a group that should have ended.
    TrailingTokens,
    /// A field attribute other than `retry`.
    UnknownAttribute,
    /// `start` was given twice.
    DuplicateStart,
    /// `context` was given twice.
    DuplicateContext,
    /// `edges` was given twice.
    DuplicateEdges,
    /// An identifier other than `on_failure` after an edge's source.
    UnexpectedEdgeKeyword,
    /// A variant binding that is neither an identifier nor `_`.
    ExpectedBinding,
    /// Neither `[` nor `{` after `=>` in an edge.
    ExpectedSuccessorList,
    /// An identifier other than `start`, `context` or `edges` at the top.
    UnexpectedIdentifier,
    /// Something other than an identifier at the top.
    UnexpectedToken,
    /// No `start` was given.
    MissingStart,
    /// No `edges` were given.
    MissingEdges,
    /// A node definition lacks `context = Type;` where it belongs.
    ExpectedContextSection,
    /// A node definition lacks `input = Type;` where it belongs.
    ExpectedInputSection,
    /// A node definition lacks `output = Type;` where it belongs.
    ExpectedOutputSection,
}

impl DefError {
    /// The text of the sentence describing the error.
    pub open spec fn spec_message(&self) -> Seq<char> {
        match self {
            DefError::UnexpectedChar => "unexpected character"@,
            DefError::Unbalanced => "unbalanced delimiters"@,
            DefError::ExpectedToken => "unexpected token"@,
            DefError::ExpectedIdent => "expected identifier"@,
            DefError::ExpectedType => "expected type"@,
            DefError::ExpectedExpr => "expected expression"@,
            DefError::TrailingTokens => "unexpected token"@,
            DefError::UnknownAttribute => "unknown attribute, expected `retry`"@,
            DefError::DuplicateStart => "Duplicate 'start' field in workflow definition."@,
            DefError::DuplicateContext => "Duplicate 'context' field in workflow definition."@,
            DefError::DuplicateEdges => "Duplicate 'edges' field in workflow definition."@,
            DefError::UnexpectedEdgeKeyword => "Unexpected identifier. Expected `on_failure` or `=>`."@,
            DefError::ExpectedBinding => "Expected identifier or _ in variant binding"@,
            DefError::ExpectedSuccessorList => "Expected [ or { after => in edge definition"@,
            DefError::UnexpectedIdentifier => "Unexpected identifier. Expected one of: start, context, edges."@,
            DefError::UnexpectedToken => "Unexpected token in workflow definition. Expected 'start', 'context', or 'edges'."@,
            DefError::MissingStart => "Missing required 'start' field in workflow definition."@,
            DefError::MissingEdges => "Missing required 'edges' field in workflow definition."@,
            DefError::ExpectedContextSection => "expected `context = Type;`"@,
            DefError::ExpectedInputSection => "expected `input = Type;`"@,
            DefError::ExpectedOutputSection => "expected `output = Type;`"@,
        }
    }

    /// A sentence describing the error.
    pub fn message(&self) -> (r: String)
        ensures
            r@ == self.spec_message(),
    {
        match self {
            DefError::UnexpectedChar => "unexpected character".to_owned(),
            DefError::Unbalanced => "unbalanced delimiters".to_owned(),
            DefError::ExpectedToken => "unexpected token".to_owned(),
            DefError::ExpectedIdent => "expected identifier".to_owned(),
            DefError::ExpectedType => "expected type".to_owned(),
            DefError::ExpectedExpr => "expected expression".to_owned(),
            DefError::TrailingTokens => "unexpected token".to_owned(),
            DefError::UnknownAttribute => "unknown attribute, expected `retry`".to_owned(),
            DefError::DuplicateStart => "Duplicate 'start' field in workflow definition.".to_owned(),
            DefError::DuplicateContext => "Duplicate 'context' field in workflow definition.".to_owned(),
            DefError::DuplicateEdges => "Duplicate 'edges' field in workflow definition.".to_owned(),
            DefError::UnexpectedEdgeKeyword => "Unexpected identifier. Expected `on_failure` or `=>`.".to_owned(),
            DefError::ExpectedBinding => "Expected identifier or _ in variant binding".to_owned(),
            DefError::ExpectedSuccessorList => "Expected [ or { after => in edge definition".to_owned(),
            DefError::UnexpectedIdentifier => "Unexpected identifier. Expected one of: start, context, edges.".to_owned(),
            DefError::UnexpectedToken => "Unexpected token in workflow definition. Expected 'start', 'context', or 'edges'.".to_owned(),
            DefError::MissingStart => "Missing required 'start' field in workflow definition.".to_owned(),
            DefError::MissingEdges => "Missing required 'edges' field in workflow definition.".to_owned(),
            DefError::ExpectedContextSection => "expected `context = Type;`".to_owned(),
            DefError::ExpectedInputSection => "expected `input = Type;`".to_owned(),
            DefError::ExpectedOutputSection => "expected `output = Type;`".to_owned(),
        }
    }
}

/// A token: a word (a maximal run of ASCII letters, digits and `_`) or one
/// punctuation character, which is joint when another punctuation
/// character follows it directly (as `=` in `=>`).
#[derive(Debug, Clone)]
pub enum Token {
    Word(String),
    Punct(char, bool),
}

/// A token as text.
pub enum TokenView {
    Word(Seq<char>),
    Punct(char, bool),
}

impl View for Token {
    type V = TokenView;

    open spec fn view(&self) -> TokenView {
        match self {
            Token::Word(w) => TokenView::Word(w@),
            Token::Punct(c, joint) => TokenView::Punct(*c, *joint),
        }
    }
}

/// The text of each token.
pub open spec fn tokens_view(v: Seq<Token>) -> Seq<TokenView> {
    v.map_values(|t: Token| t@)
}

impl Token {
    /// A copy of this token.
    pub fn duplicate(&self) -> (t: Token)
        ensures
            t@ == self@,
    {
        match self {
            Token::Word(w) => Token::Word(w.clone()),
            Token::Punct(c, joint) => Token::Punct(*c, *joint),
        }
    }
}

/// A copy of `toks[from..to]`.
pub fn copy_run(toks: &Vec<Token>, from: usize, to: usize) -> (r: Vec<Token>)
    requires
        from <= to <= toks@.len(),
    ensures
        tokens_view(r@) == tokens_view(toks@).subrange(from as int, to as int),
{
    let mut r: Vec<Token> = Vec::new();
    let mut i = from;
    while i < to
        invariant
            from <= i <= to <= toks@.len(),
            r@.len() == i - from,
            tokens_view(r@) == tokens_view(toks@).subrange(from as int, i as int),
        decreases to - i,
    {
        let t = toks[i].duplicate();
        let ghost before = r@;
        r.push(t);
        proof {
            assert(r@ == before.push(t));
            assert forall|k: int| 0 <= k < r@.len() implies #[trigger] tokens_view(r@)[k]
                == tokens_view(toks@).subrange(from as int, i + 1)[k] by {
                assert(tokens_view(r@)[k] == r@[k]@);
                if k < before.len() {
                    assert(r@[k] == before[k]);
                    assert(tokens_view(before)[k] == before[k]@);
                    assert(tokens_view(before)[k] == tokens_view(toks@).subrange(from as int, i as int)[k]);
                } else {
                    assert(r@[k] == t);
                    assert(tokens_view(toks@)[i as int] == toks@[i as int]@);
                }
            }
            assert(tokens_view(r@) =~= tokens_view(toks@).subrange(from as int, i + 1));
        }
        i += 1;
    }
    r
}

/// Blanks between tokens.
pub open spec fn is_space(c: char) -> bool {
    c == ' ' || c == '\t' || c == '\n' || c == '\r'
}

/// Characters that make up words.
pub open spec fn is_word_char(c: char) -> bool {
    ('a' <= c && c <= 'z') || ('A' <= c && c <= 'Z') || ('0' <= c && c <= '9') || c == '_'
}

/// ASCII punctuation other than `_`.
pub open spec fn is_punct_char(c: char) -> bool {
    ('!' <= c && c <= '/') || (':' <= c && c <= '@') || ('[' <= c && c <= '`' && c != '_') || ('{'
        <= c && c <= '~')
}

/// Where the word that starts at `i` ends.
pub open spec fn word_end(cs: Seq<char>, i: int) -> int
    decreases cs.len() - i,
{
    if 0 <= i < cs.len() && is_word_char(cs[i]) {
        word_end(cs, i + 1)
    } else {
        i
    }
}

/// Where the line that contains position `i` ends: the position of the
/// next newline, or the end of the text.
pub open spec fn line_end(cs: Seq<char>, i: int) -> int
    decreases cs.len() - i,
{
    if 0 <= i < cs.len() && cs[i] != '\n' {
        line_end(cs, i + 1)
    } else {
        i
    }
}

/// A line ends at or after where it is entered.
pub proof fn lemma_line_end(cs: Seq<char>, i: int)
    requires
        0 <= i <= cs.len(),
    ensures
        i <= line_end(cs, i) <= cs.len(),
        i < cs.len() && cs[i] != '\n' ==> i < line_end(cs, i),
    decreases cs.len() - i,
{
    if i < cs.len() && cs[i] != '\n' {
        lemma_line_end(cs, i + 1);
    }
}

/// Whether a `//` comment starts at `i`.
pub open spec fn comment_at(cs: Seq<char>, i: int) -> bool {
    0 <= i && i + 1 < cs.len() && cs[i] == '/' && cs[i + 1] == '/'
}

/// The tokens of `cs` from position `i` on; `//` comments run to the end
/// of their line and give no tokens.
pub open spec fn lex_from(cs: Seq<char>, i: int) -> Result<Seq<TokenView>, DefError>
    decreases cs.len() - i,
{
    if i < 0 || i >= cs.len() {
        Ok(Seq::empty())
    } else if is_space(cs[i]) {
        lex_from(cs, i + 1)
    } else if comment_at(cs, i) {
        proof {
            lemma_line_end(cs, i);
        }
        lex_from(cs, line_end(cs, i))
    } else if is_word_char(cs[i]) {
        let j = word_end(cs, i);
        proof {
            lemma_word_end(cs, i);
        }
        match lex_from(cs, j) {
            Ok(rest) => Ok(seq![TokenView::Word(cs.subrange(i, j))] + rest),
            Err(e) => Err(e),
        }
    } else if is_punct_char(cs[i]) {
        let joint = i + 1 < cs.len() && is_punct_char(cs[i + 1]);
        match lex_from(cs, i + 1) {
            Ok(rest) => Ok(seq![TokenView::Punct(cs[i], joint)] + rest),
            Err(e) => Err(e),
        }
    } else {
        Err(DefError::UnexpectedChar)
    }
}

/// A word runs on to the first character that cannot be part of it.
pub proof fn lemma_word_end(cs: Seq<char>, i: int)
    requires
        0 <= i <= cs.len(),
    ensures
        i <= word_end(cs, i) <= cs.len(),
        forall|k: int| i <= k < word_end(cs, i) ==> is_word_char(#[trigger] cs[k]),
        word_end(cs, i) < cs.len() ==> !is_word_char(cs[word_end(cs, i)]),
        i < cs.len() && is_word_char(cs[i]) ==> i < word_end(cs, i),
    decreases cs.len() - i,
{
    if i < cs.len() && is_word_char(cs[i]) {
        lemma_word_end(cs, i + 1);
    }
}

/// Opening delimiters.
pub open spec fn is_opener(c: char) -> bool {
    c == '(' || c == '[' || c == '{'
}

/// Closing delimiters.
pub open spec fn is_closer(c: char) -> bool {
    c == ')' || c == ']' || c == '}'
}

/// The closer that matches an opener.
pub open spec fn closer_of(c: char) -> char {
    if c == '(' {
        ')'
    } else if c == '[' {
        ']'
    } else {
        '}'
    }
}

/// Whether the delimiters of `toks[i..]` close in order, given the openers
/// in `open` still waiting for their closers (innermost last).
pub open spec fn balanced_from(toks: Seq<TokenView>, i: int, open: Seq<char>) -> bool
    decreases toks.len() - i,
{
    if i < 0 || i >= toks.len() {
        open.len() == 0
    } else {
        match toks[i] {
            TokenView::Punct(c, _) => {
                if is_opener(c) {
                    balanced_from(toks, i + 1, open.push(c))
                } else if is_closer(c) {
                    open.len() > 0 && closer_of(open.last()) == c && balanced_from(
                        toks,
                        i + 1,
                        open.drop_last(),
                    )
                } else {
                    balanced_from(toks, i + 1, open)
                }
            },
            TokenView::Word(_) => balanced_from(toks, i + 1, open),
        }
    }
}

/// The tokens of a definition text: every character lexes, and the
/// delimiters close in order.
pub open spec fn tokenize_spec(cs: Seq<char>) -> Result<Seq<TokenView>, DefError> {
    match lex_from(cs, 0) {
        Ok(toks) => if balanced_from(toks, 0, Seq::empty()) {
            Ok(toks)
        } else {
            Err(DefError::Unbalanced)
        },
        Err(e) => Err(e),
    }
}

/// `prefix` followed by what `rest` holds, or `rest`'s error.
pub open spec fn prepend_tokens(prefix: Seq<TokenView>, rest: Result<Seq<TokenView>, DefError>) -> Result<
    Seq<TokenView>,
    DefError,
> {
    match rest {
        Ok(t) => Ok(prefix + t),
        Err(e) => Err(e),
    }
}

fn is_space_exec(c: char) -> (r: bool)
    ensures
        r == is_space(c),
{
    c == ' ' || c == '\t' || c == '\n' || c == '\r'
}

fn is_word_char_exec(c: char) -> (r: bool)
    ensures
        r == is_word_char(c),
{
    ('a' <= c && c <= 'z') || ('A' <= c && c <= 'Z') || ('0' <= c && c <= '9') || c == '_'
}

fn is_punct_char_exec(c: char) -> (r: bool)
    ensures
        r == is_punct_char(c),
{
    ('!' <= c && c <= '/') || (':' <= c && c <= '@') || ('[' <= c && c <= '`' && c != '_') || ('{'
        <= c && c <= '~')
}

/// The characters of `s`.
pub fn chars_of(s: &str) -> (v: Vec<char>)
    ensures
        v@ == s@,
{
    let n = s.unicode_len();
    let mut v: Vec<char> = Vec::new();
    let mut i: usize = 0;
    while i < n
        invariant
            n == s@.len(),
            i <= n,
            v@ == s@.subrange(0, i as int),
        decreases n - i,
    {
        v.push(s.get_char(i));
        proof {
            assert(v@ =~= s@.subrange(0, i + 1));
        }
        i += 1;
    }
    proof {
        assert(v@ =~= s@);
    }
    v
}

/// Cuts `s` into tokens.
fn lex(s: &str) -> (r: Result<Vec<Token>, DefError>)
    ensures
        match r {
            Ok(toks) => lex_from(s@, 0) == Ok::<Seq<TokenView>, DefError>(tokens_view(toks@)),
            Err(e) => lex_from(s@, 0) == Err::<Seq<TokenView>, DefError>(e),
        },
{
    let cs = chars_of(s);
    let n = cs.len();
    let mut toks: Vec<Token> = Vec::new();
    let mut i: usize = 0;
    while i < n
        invariant
            cs@ == s@,
            n == cs@.len(),
            i <= n,
            lex_from(cs@, 0) == prepend_tokens(tokens_view(toks@), lex_from(cs@, i as int)),
        decreases n - i,
    {
        let c = cs[i];
        if is_space_exec(c) {
            i += 1;
        } else if c == '/' && i + 1 < n && cs[i + 1] == '/' {
            let start = i;
            while i < n && cs[i] != '\n'
                invariant
                    n == cs@.len(),
                    start <= i <= n,
                    forall|k: int| start <= k < i ==> cs@[k] != '\n',
                    line_end(cs@, start as int) == line_end(cs@, i as int),
                decreases n - i,
            {
                i += 1;
            }
        } else if is_word_char_exec(c) {
            let start = i;
            while i < n && is_word_char_exec(cs[i])
                invariant
                    start < n,
                    n == cs@.len(),
                    start <= i <= n,
                    is_word_char(cs@[start as int]),
                    forall|k: int| start <= k < i ==> is_word_char(#[trigger] cs@[k]),
                decreases n - i,
            {
                i += 1;
            }
            proof {
                lemma_word_end_at(cs@, start as int, i as int);
            }
            let w = s.substring_char(start, i).to_owned();
            let ghost before = tokens_view(toks@);
            toks.push(Token::Word(w));
            proof {
                assert(tokens_view(toks@) =~= before + seq![TokenView::Word(cs@.subrange(start as int, i as int))]);
                match lex_from(cs@, i as int) {
                    Ok(rest) => {
                        assert(before + seq![TokenView::Word(cs@.subrange(start as int, i as int))] + rest
                            =~= before + (seq![TokenView::Word(cs@.subrange(start as int, i as int))] + rest));
                    },
                    Err(_) => {},
                }
            }
        } else if is_punct_char_exec(c) {
            let joint = i + 1 < n && is_punct_char_exec(cs[i + 1]);
            let ghost before = tokens_view(toks@);
            toks.push(Token::Punct(c, joint));
            proof {
                assert(tokens_view(toks@) =~= before + seq![TokenView::Punct(c, joint)]);
                match lex_from(cs@, i + 1) {
                    Ok(rest) => {
                        assert(before + seq![TokenView::Punct(c, joint)] + rest
                            =~= before + (seq![TokenView::Punct(c, joint)] + rest));
                    },
                    Err(_) => {},
                }
            }
            i += 1;
        } else {
            return Err(DefError::UnexpectedChar);
        }
    }
    proof {
        assert(tokens_view(toks@) + Seq::<TokenView>::empty() =~= tokens_view(toks@));
    }
    Ok(toks)
}

/// The word that starts at `start` ends where the scan stopped.
proof fn lemma_word_end_at(cs: Seq<char>, start: int, stop: int)
    requires
        0 <= start <= stop <= cs.len(),
        forall|k: int| start <= k < stop ==> is_word_char(#[trigger] cs[k]),
        stop < cs.len() ==> !is_word_char(cs[stop]),
    ensures
        word_end(cs, start) == stop,
    decreases stop - start,
{
    if start < stop {
        lemma_word_end_at(cs, start + 1, stop);
    }
}

/// Whether the delimiters of `toks` close in order.
fn check_balanced(toks: &Vec<Token>) -> (b: bool)
    ensures
        b == balanced_from(tokens_view(toks@), 0, Seq::empty()),
{
    let ghost tv = tokens_view(toks@);
    let mut open: Vec<char> = Vec::new();
    let mut i: usize = 0;
    while i < toks.len()
        invariant
            tv == tokens_view(toks@),
            i <= toks@.len(),
            balanced_from(tv, 0, Seq::empty()) == balanced_from(tv, i as int, open@),
        decreases toks@.len() - i,
    {
        match &toks[i] {
            Token::Punct(c, _) => {
                let c = *c;
                if c == '(' || c == '[' || c == '{' {
                    open.push(c);
                } else if c == ')' || c == ']' || c == '}' {
                    if open.len() == 0 {
                        return false;
                    }
                    let last = open[open.len() - 1];
                    let want = if last == '(' {
                        ')'
                    } else if last == '[' {
                        ']'
                    } else {
                        '}'
                    };
                    if want != c {
                        return false;
                    }
                    open.pop();
                }
            },
            Token::Word(_) => {},
        }
        i += 1;
    }
    open.len() == 0
}

/// Cuts a definition text into tokens and checks that its delimiters
/// close in order.
pub fn tokenize(s: &str) -> (r: Result<Vec<Token>, DefError>)
    ensures
        match r {
            Ok(toks) => tokenize_spec(s@) == Ok::<Seq<TokenView>, DefError>(tokens_view(toks@)),
            Err(e) => tokenize_spec(s@) == Err::<Seq<TokenView>, DefError>(e),
        },
{
    let toks = match lex(s) {
        Ok(t) => t,
        Err(e) => return Err(e),
    };
    if check_balanced(&toks) {
        Ok(toks)
    } else {
        Err(DefError::Unbalanced)
    }
}

} // verus!
