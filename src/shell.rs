use vstd::prelude::*;
use vstd::string::StrSliceExecFns;
use vstd::string::StringExecFns;

verus! {

/// String component is either a `$variable` or just text.
#[derive(Debug, PartialEq, Clone)]
pub enum StringComponent {
    StringLiteral(String),
    VariableName(String),
}

/// A word of the input line, as it was quoted.
#[derive(Debug, PartialEq, Clone)]
pub enum ShellString {
    WithInterpolation(Vec<StringComponent>),
    WithoutInterpolation(String),
}

/// A token of the input line.
#[derive(Debug, PartialEq, Clone)]
pub enum ShellToken {
    StringToken(ShellString),
    Pipe,
    Assign,
}

/// The lexer could not read the line.
#[derive(Debug, PartialEq, Clone)]
pub struct ParseError;

/// What a string component stands for.
pub enum ComponentModel {
    Text(Seq<char>),
    Var(Seq<char>),
}

/// What a shell string stands for.
pub enum StringModel {
    Interpolated(Seq<ComponentModel>),
    Literal(Seq<char>),
}

/// What a token stands for.
pub enum TokenModel {
    Str(StringModel),
    Pipe,
    Assign,
}

impl View for StringComponent {
    type V = ComponentModel;

    open spec fn view(&self) -> ComponentModel {
        match self {
            StringComponent::StringLiteral(s) => ComponentModel::Text(s@),
            StringComponent::VariableName(s) => ComponentModel::Var(s@),
        }
    }
}

pub open spec fn components_view(v: Seq<StringComponent>) -> Seq<ComponentModel> {
    v.map_values(|c: StringComponent| c@)
}

impl View for ShellString {
    type V = StringModel;

    open spec fn view(&self) -> StringModel {
        match self {
            ShellString::WithInterpolation(v) => StringModel::Interpolated(components_view(v@)),
            ShellString::WithoutInterpolation(s) => StringModel::Literal(s@),
        }
    }
}

impl View for ShellToken {
    type V = TokenModel;

    open spec fn view(&self) -> TokenModel {
        match self {
            ShellToken::StringToken(s) => TokenModel::Str(s@),
            ShellToken::Pipe => TokenModel::Pipe,
            ShellToken::Assign => TokenModel::Assign,
        }
    }
}

pub open spec fn tokens_view(v: Seq<ShellToken>) -> Seq<TokenModel> {
    v.map_values(|t: ShellToken| t@)
}

/// Characters of a variable name.
pub open spec fn is_name_char(c: char) -> bool {
    ('a' <= c && c <= 'z') || ('A' <= c && c <= 'Z') || ('0' <= c && c <= '9') || c == '_'
}

/// Characters of an unquoted word besides variable references.
pub open spec fn is_word_char(c: char) -> bool {
    is_name_char(c) || c == '-' || c == '.' || c == ',' || c == ':'
}

/// Characters that a backslash escapes inside double quotes.
pub open spec fn is_escapable(c: char) -> bool {
    c == '\\' || c == '"' || c == '$'
}

/// Whitespace between tokens: the characters with Unicode's White_Space
/// property.
pub open spec fn is_space(c: char) -> bool {
    ('\t' <= c && c <= '\r') || c == ' ' || c == '\u{85}' || c == '\u{a0}' || c == '\u{1680}' || (
    '\u{2000}' <= c && c <= '\u{200a}') || c == '\u{2028}' || c == '\u{2029}' || c == '\u{202f}' || c
        == '\u{205f}' || c == '\u{3000}'
}

/// Adds one character of text to the components read so far: it extends the
/// variable name being read if it can belong to one, else the text fragment
/// that ends the sequence, else it starts a new fragment.
pub open spec fn add_char(comps: Seq<ComponentModel>, c: char) -> Seq<ComponentModel> {
    if comps.len() > 0 {
        match comps.last() {
            ComponentModel::Var(n) => if is_name_char(c) {
                comps.update(comps.len() - 1, ComponentModel::Var(n.push(c)))
            } else {
                comps.push(ComponentModel::Text(seq![c]))
            },
            ComponentModel::Text(t) => comps.update(comps.len() - 1, ComponentModel::Text(t.push(c))),
        }
    } else {
        comps.push(ComponentModel::Text(seq![c]))
    }
}

/// The body of a double-quoted string from position `i`, with `comps` read
/// so far: the components and the position after the closing quote.
pub open spec fn quoted_from(s: Seq<char>, i: int, comps: Seq<ComponentModel>) -> Option<(Seq<ComponentModel>, int)>
    decreases s.len() - i,
{
    if i < 0 || i >= s.len() {
        None
    } else if s[i] == '"' {
        Some((comps, i + 1))
    } else if s[i] == '$' {
        if i + 1 < s.len() && is_name_char(s[i + 1]) {
            quoted_from(s, i + 2, comps.push(ComponentModel::Var(seq![s[i + 1]])))
        } else {
            None
        }
    } else if s[i] == '\\' {
        if i + 1 < s.len() && is_escapable(s[i + 1]) {
            quoted_from(s, i + 2, add_char(comps, s[i + 1]))
        } else {
            None
        }
    } else {
        quoted_from(s, i + 1, add_char(comps, s[i]))
    }
}

/// The body of a single-quoted string from position `i`, with `text` read so
/// far: the text and the position after the closing quote.
pub open spec fn single_quoted_from(s: Seq<char>, i: int, text: Seq<char>) -> Option<(Seq<char>, int)>
    decreases s.len() - i,
{
    if i < 0 || i >= s.len() {
        None
    } else if s[i] == '\'' {
        Some((text, i + 1))
    } else if s[i] == '\\' && i + 1 < s.len() && s[i + 1] == '\'' {
        single_quoted_from(s, i + 2, text.push('\''))
    } else {
        single_quoted_from(s, i + 1, text.push(s[i]))
    }
}

/// An unquoted word from position `i`, with `comps` read so far: it ends at
/// the first character that neither belongs to a word nor starts a `$name`.
pub open spec fn unquoted_from(s: Seq<char>, i: int, comps: Seq<ComponentModel>) -> (Seq<ComponentModel>, int)
    decreases s.len() - i,
{
    if 0 <= i < s.len() && is_word_char(s[i]) {
        unquoted_from(s, i + 1, add_char(comps, s[i]))
    } else if 0 <= i && i + 1 < s.len() && s[i] == '$' && is_name_char(s[i + 1]) {
        unquoted_from(s, i + 2, comps.push(ComponentModel::Var(seq![s[i + 1]])))
    } else {
        (comps, i)
    }
}

/// The outcome of reading one item at a position.
pub enum Lexeme<T> {
    /// The item and the position after it.
    Found(T, int),
    /// Nothing of the kind starts here; nothing is consumed.
    NoMatch,
    /// An item starts here but is malformed.
    Failed,
}

/// A shell string at position `i`: double-quoted, single-quoted or unquoted.
pub open spec fn string_at(s: Seq<char>, i: int) -> Lexeme<StringModel> {
    if i < 0 || i >= s.len() {
        Lexeme::NoMatch
    } else if s[i] == '"' {
        match quoted_from(s, i + 1, seq![]) {
            Some((c, e)) => Lexeme::Found(StringModel::Interpolated(c), e),
            None => Lexeme::Failed,
        }
    } else if s[i] == '\'' {
        match single_quoted_from(s, i + 1, seq![]) {
            Some((t, e)) => Lexeme::Found(StringModel::Literal(t), e),
            None => Lexeme::Failed,
        }
    } else {
        let (c, e) = unquoted_from(s, i, seq![]);
        if c.len() == 0 {
            Lexeme::NoMatch
        } else {
            Lexeme::Found(StringModel::Interpolated(c), e)
        }
    }
}

/// A token at position `i`.
pub open spec fn token_at(s: Seq<char>, i: int) -> Lexeme<TokenModel> {
    if 0 <= i < s.len() && s[i] == '|' {
        Lexeme::Found(TokenModel::Pipe, i + 1)
    } else if 0 <= i < s.len() && s[i] == '=' {
        Lexeme::Found(TokenModel::Assign, i + 1)
    } else {
        match string_at(s, i) {
            Lexeme::Found(m, e) => Lexeme::Found(TokenModel::Str(m), e),
            Lexeme::NoMatch => Lexeme::NoMatch,
            Lexeme::Failed => Lexeme::Failed,
        }
    }
}

/// The end of the run of whitespace that starts at `i`.
pub open spec fn space_end(s: Seq<char>, i: int) -> int
    decreases s.len() - i,
{
    if 0 <= i < s.len() && is_space(s[i]) {
        space_end(s, i + 1)
    } else {
        i
    }
}

/// Reading a string at `i` that succeeds moves past `i`, within the line.
pub proof fn lemma_string_advances(s: Seq<char>, i: int)
    ensures
        string_at(s, i) is Found ==> i < string_at(s, i)->Found_1 <= s.len(),
{
    if 0 <= i < s.len() {
        if s[i] == '"' {
            lemma_quoted_bounds(s, i + 1, seq![]);
        } else if s[i] == '\'' {
            lemma_single_quoted_bounds(s, i + 1, seq![]);
        } else {
            lemma_unquoted_bounds(s, i, seq![]);
        }
    }
}

/// Reading a token at `i` that succeeds moves past `i`, within the line.
pub proof fn lemma_token_advances(s: Seq<char>, i: int)
    ensures
        token_at(s, i) is Found ==> i < token_at(s, i)->Found_1 <= s.len(),
{
    lemma_string_advances(s, i);
}

pub proof fn lemma_quoted_bounds(s: Seq<char>, i: int, comps: Seq<ComponentModel>)
    ensures
        quoted_from(s, i, comps) is Some ==> i < quoted_from(s, i, comps)->Some_0.1 <= s.len(),
    decreases s.len() - i,
{
    if 0 <= i < s.len() && s[i] != '"' {
        if s[i] == '$' {
            if i + 1 < s.len() && is_name_char(s[i + 1]) {
                lemma_quoted_bounds(s, i + 2, comps.push(ComponentModel::Var(seq![s[i + 1]])));
            }
        } else if s[i] == '\\' {
            if i + 1 < s.len() && is_escapable(s[i + 1]) {
                lemma_quoted_bounds(s, i + 2, add_char(comps, s[i + 1]));
            }
        } else {
            lemma_quoted_bounds(s, i + 1, add_char(comps, s[i]));
        }
    }
}

pub proof fn lemma_single_quoted_bounds(s: Seq<char>, i: int, text: Seq<char>)
    ensures
        single_quoted_from(s, i, text) is Some ==> i < single_quoted_from(s, i, text)->Some_0.1 <= s.len(),
    decreases s.len() - i,
{
    if 0 <= i < s.len() && s[i] != '\'' {
        if s[i] == '\\' && i + 1 < s.len() && s[i + 1] == '\'' {
            lemma_single_quoted_bounds(s, i + 2, text.push('\''));
        } else {
            lemma_single_quoted_bounds(s, i + 1, text.push(s[i]));
        }
    }
}

pub proof fn lemma_unquoted_bounds(s: Seq<char>, i: int, comps: Seq<ComponentModel>)
    requires
        0 <= i <= s.len(),
    ensures
        i <= unquoted_from(s, i, comps).1 <= s.len(),
        unquoted_from(s, i, comps).1 == i ==> unquoted_from(s, i, comps).0 == comps,
    decreases s.len() - i,
{
    if 0 <= i < s.len() && is_word_char(s[i]) {
        lemma_unquoted_bounds(s, i + 1, add_char(comps, s[i]));
    } else if 0 <= i && i + 1 < s.len() && s[i] == '$' && is_name_char(s[i + 1]) {
        lemma_unquoted_bounds(s, i + 2, comps.push(ComponentModel::Var(seq![s[i + 1]])));
    }
}

pub proof fn lemma_space_end(s: Seq<char>, i: int)
    requires
        0 <= i <= s.len(),
    ensures
        i <= space_end(s, i) <= s.len(),
    decreases s.len() - i,
{
    if i < s.len() && is_space(s[i]) {
        lemma_space_end(s, i + 1);
    }
}

/// Whether two tokens must be separated by whitespace: unless one of them is
/// a pipe or an assignment mark.
pub open spec fn needs_space(a: TokenModel, b: TokenModel) -> bool {
    !(a is Pipe || a is Assign || b is Pipe || b is Assign)
}

/// The tokens that follow position `i`, each after a run of whitespace, with
/// `toks` read so far: the tokens and the position after the last of them.
/// Two tokens that need whitespace between them and have none are an error.
pub open spec fn tokens_from(s: Seq<char>, i: int, toks: Seq<TokenModel>) -> Option<(Seq<TokenModel>, int)>
    decreases s.len() - i,
{
    if 0 <= i <= s.len() {
        let j = space_end(s, i);
        proof {
            lemma_space_end(s, i);
            lemma_token_advances(s, j);
        }
        match token_at(s, j) {
            Lexeme::Found(t, e) => if j == i && toks.len() > 0 && needs_space(toks.last(), t) {
                None
            } else {
                tokens_from(s, e, toks.push(t))
            },
            Lexeme::NoMatch => Some((toks, i)),
            Lexeme::Failed => None,
        }
    } else {
        None
    }
}

/// The tokens at the start of a line, separated by whitespace: the tokens and
/// the position after the last of them, or `None` where a token is malformed.
pub open spec fn token_sequence(s: Seq<char>) -> Option<(Seq<TokenModel>, int)> {
    match token_at(s, 0) {
        Lexeme::Found(t, e) => tokens_from(s, e, seq![t]),
        Lexeme::NoMatch => Some((seq![], 0)),
        Lexeme::Failed => None,
    }
}

/// The tokens of a whole line: only whitespace may follow the last token.
pub open spec fn lex_line(s: Seq<char>) -> Option<Seq<TokenModel>> {
    match token_sequence(s) {
        Some((t, e)) => if space_end(s, e) == s.len() {
            Some(t)
        } else {
            None
        },
        None => None,
    }
}

/// Relies on `String`'s `FromIterator<&char>`: the characters, in order.
#[verifier::external_body]
pub(crate) fn string_of_chars(v: &Vec<char>) -> (r: String)
    ensures
        r@ == v@,
{
    v.iter().collect()
}

/// The characters of `s`, in order.
pub fn chars_of(s: &str) -> (r: Vec<char>)
    ensures
        r@ == s@,
{
    let n = s.unicode_len();
    let mut r: Vec<char> = Vec::new();
    let mut i: usize = 0;
    while i < n
        invariant
            n == s@.len(),
            i <= n,
            r@ == s@.subrange(0, i as int),
        decreases n - i,
    {
        r.push(s.get_char(i));
        i = i + 1;
    }
    assert(r@ =~= s@);
    r
}

fn is_name_char_exec(c: char) -> (r: bool)
    ensures
        r == is_name_char(c),
{
    ('a' <= c && c <= 'z') || ('A' <= c && c <= 'Z') || ('0' <= c && c <= '9') || c == '_'
}

fn is_word_char_exec(c: char) -> (r: bool)
    ensures
        r == is_word_char(c),
{
    is_name_char_exec(c) || c == '-' || c == '.' || c == ',' || c == ':'
}

fn is_space_exec(c: char) -> (r: bool)
    ensures
        r == is_space(c),
{
    ('\t' <= c && c <= '\r') || c == ' ' || c == '\u{85}' || c == '\u{a0}' || c == '\u{1680}' || (
    '\u{2000}' <= c && c <= '\u{200a}') || c == '\u{2028}' || c == '\u{2029}' || c == '\u{202f}' || c
        == '\u{205f}' || c == '\u{3000}'
}

/// Components being read: those finished, and the one still growing.
struct Fragments {
    done: Vec<StringComponent>,
    cur: Vec<char>,
    cur_is_var: bool,
}

impl Fragments {
    spec fn model(&self) -> Seq<ComponentModel> {
        if self.cur@.len() > 0 {
            components_view(self.done@).push(
                if self.cur_is_var {
                    ComponentModel::Var(self.cur@)
                } else {
                    ComponentModel::Text(self.cur@)
                },
            )
        } else {
            components_view(self.done@)
        }
    }

    spec fn wf(&self) -> bool {
        self.cur@.len() == 0 ==> self.done@.len() == 0
    }

    fn new() -> (r: Fragments)
        ensures
            r.wf(),
            r.model() == Seq::<ComponentModel>::empty(),
    {
        let r = Fragments { done: Vec::new(), cur: Vec::new(), cur_is_var: false };
        assert(components_view(r.done@) =~= Seq::<ComponentModel>::empty());
        r
    }

    fn flush(&mut self)
        ensures
            final(self).cur@.len() == 0,
            components_view(final(self).done@) == old(self).model(),
    {
        if self.cur.len() > 0 {
            let text = string_of_chars(&self.cur);
            let comp = if self.cur_is_var {
                StringComponent::VariableName(text)
            } else {
                StringComponent::StringLiteral(text)
            };
            let ghost before = self.done@;
            self.done.push(comp);
            assert(components_view(self.done@) =~= components_view(before).push(comp@));
            self.cur = Vec::new();
        }
    }

    fn push_char(&mut self, c: char)
        requires
            old(self).wf(),
        ensures
            final(self).wf(),
            final(self).model() == add_char(old(self).model(), c),
    {
        if self.cur.len() > 0 && (!self.cur_is_var || is_name_char_exec(c)) {
            self.cur.push(c);
            assert(components_view(self.done@).len() == self.done@.len());
            assert(self.model() =~= add_char(old(self).model(), c));
        } else {
            self.flush();
            self.cur = vec![c];
            self.cur_is_var = false;
            assert(self.cur@ =~= seq![c]);
        }
    }

    fn start_var(&mut self, c: char)
        requires
            old(self).wf(),
        ensures
            final(self).wf(),
            final(self).model() == old(self).model().push(ComponentModel::Var(seq![c])),
    {
        self.flush();
        self.cur = vec![c];
        self.cur_is_var = true;
        assert(self.cur@ =~= seq![c]);
    }

    fn finish(self) -> (r: Vec<StringComponent>)
        ensures
            components_view(r@) == self.model(),
    {
        let mut f = self;
        f.flush();
        f.done
    }
}

/// Reads the body of a double-quoted string that starts at `start`.
fn scan_quoted(s: &Vec<char>, start: usize) -> (r: Option<(Vec<StringComponent>, usize)>)
    requires
        start <= s@.len(),
    ensures
        match quoted_from(s@, start as int, seq![]) {
            Some((c, e)) => r is Some && components_view(r->Some_0.0@) == c && r->Some_0.1 == e,
            None => r is None,
        },
{
    let mut f = Fragments::new();
    let mut i: usize = start;
    loop
        invariant
            start <= i <= s@.len(),
            f.wf(),
            quoted_from(s@, i as int, f.model()) == quoted_from(s@, start as int, seq![]),
        decreases s@.len() - i,
    {
        if i >= s.len() {
            return None;
        }
        let c = s[i];
        if c == '"' {
            let comps = f.finish();
            return Some((comps, i + 1));
        } else if c == '$' {
            if i + 1 < s.len() && is_name_char_exec(s[i + 1]) {
                f.start_var(s[i + 1]);
                i = i + 2;
            } else {
                return None;
            }
        } else if c == '\\' {
            if i + 1 < s.len() && (s[i + 1] == '\\' || s[i + 1] == '"' || s[i + 1] == '$') {
                f.push_char(s[i + 1]);
                i = i + 2;
            } else {
                return None;
            }
        } else {
            f.push_char(c);
            i = i + 1;
        }
    }
}

/// Reads the body of a single-quoted string that starts at `start`.
fn scan_single_quoted(s: &Vec<char>, start: usize) -> (r: Option<(String, usize)>)
    requires
        start <= s@.len(),
    ensures
        match single_quoted_from(s@, start as int, seq![]) {
            Some((t, e)) => r is Some && r->Some_0.0@ == t && r->Some_0.1 == e,
            None => r is None,
        },
{
    let mut text: Vec<char> = Vec::new();
    let mut i: usize = start;
    loop
        invariant
            start <= i <= s@.len(),
            single_quoted_from(s@, i as int, text@) == single_quoted_from(s@, start as int, seq![]),
        decreases s@.len() - i,
    {
        if i >= s.len() {
            return None;
        }
        let c = s[i];
        if c == '\'' {
            return Some((string_of_chars(&text), i + 1));
        } else if c == '\\' && i + 1 < s.len() && s[i + 1] == '\'' {
            text.push('\'');
            i = i + 2;
        } else {
            text.push(c);
            i = i + 1;
        }
    }
}

/// Reads an unquoted word that starts at `start`.
fn scan_unquoted(s: &Vec<char>, start: usize) -> (r: (Vec<StringComponent>, usize))
    requires
        start <= s@.len(),
    ensures
        components_view(r.0@) == unquoted_from(s@, start as int, seq![]).0,
        r.1 == unquoted_from(s@, start as int, seq![]).1,
{
    let mut f = Fragments::new();
    let mut i: usize = start;
    loop
        invariant
            start <= i <= s@.len(),
            f.wf(),
            unquoted_from(s@, i as int, f.model()) == unquoted_from(s@, start as int, seq![]),
        decreases s@.len() - i,
    {
        if i < s.len() && is_word_char_exec(s[i]) {
            f.push_char(s[i]);
            i = i + 1;
        } else if i < s.len() && i + 1 < s.len() && s[i] == '$' && is_name_char_exec(s[i + 1]) {
            f.start_var(s[i + 1]);
            i = i + 2;
        } else {
            let comps = f.finish();
            return (comps, i);
        }
    }
}

/// Reads a shell string at `i`: `Ok(None)` where none starts there.
fn lex_string(s: &Vec<char>, i: usize) -> (r: Result<Option<(ShellString, usize)>, ParseError>)
    requires
        i <= s@.len(),
    ensures
        match string_at(s@, i as int) {
            Lexeme::Found(m, e) => r matches Ok(Some((v, f))) && v@ == m && f == e,
            Lexeme::NoMatch => r matches Ok(None),
            Lexeme::Failed => r is Err,
        },
{
    if i >= s.len() {
        Ok(None)
    } else if s[i] == '"' {
        match scan_quoted(s, i + 1) {
            Some((comps, e)) => Ok(Some((ShellString::WithInterpolation(comps), e))),
            None => Err(ParseError),
        }
    } else if s[i] == '\'' {
        match scan_single_quoted(s, i + 1) {
            Some((text, e)) => Ok(Some((ShellString::WithoutInterpolation(text), e))),
            None => Err(ParseError),
        }
    } else {
        let (comps, e) = scan_unquoted(s, i);
        if comps.len() == 0 {
            Ok(None)
        } else {
            Ok(Some((ShellString::WithInterpolation(comps), e)))
        }
    }
}

/// Reads a token at `i`: `Ok(None)` where none starts there.
fn lex_token(s: &Vec<char>, i: usize) -> (r: Result<Option<(ShellToken, usize)>, ParseError>)
    requires
        i <= s@.len(),
    ensures
        match token_at(s@, i as int) {
            Lexeme::Found(m, e) => r matches Ok(Some((v, f))) && v@ == m && f == e,
            Lexeme::NoMatch => r matches Ok(None),
            Lexeme::Failed => r is Err,
        },
{
    if i < s.len() && s[i] == '|' {
        Ok(Some((ShellToken::Pipe, i + 1)))
    } else if i < s.len() && s[i] == '=' {
        Ok(Some((ShellToken::Assign, i + 1)))
    } else {
        match lex_string(s, i) {
            Ok(Some((v, e))) => Ok(Some((ShellToken::StringToken(v), e))),
            Ok(None) => Ok(None),
            Err(e) => Err(e),
        }
    }
}

fn needs_space_exec(a: &ShellToken, b: &ShellToken) -> (r: bool)
    ensures
        r == needs_space(a@, b@),
{
    match (a, b) {
        (ShellToken::StringToken(_), ShellToken::StringToken(_)) => true,
        _ => false,
    }
}

fn skip_spaces(s: &Vec<char>, i: usize) -> (r: usize)
    requires
        i <= s@.len(),
    ensures
        r == space_end(s@, i as int),
{
    let mut j: usize = i;
    while j < s.len() && is_space_exec(s[j])
        invariant
            i <= j <= s@.len(),
            space_end(s@, j as int) == space_end(s@, i as int),
        decreases s@.len() - j,
    {
        j = j + 1;
    }
    j
}

/// Reads the tokens at the start of `s`, separated by whitespace.
fn lex_tokens(s: &Vec<char>) -> (r: Result<(Vec<ShellToken>, usize), ParseError>)
    ensures
        match token_sequence(s@) {
            Some((t, e)) => r matches Ok((v, f)) && tokens_view(v@) == t && f == e,
            None => r is Err,
        },
{
    let mut toks: Vec<ShellToken> = Vec::new();
    let mut i: usize;
    match lex_token(s, 0) {
        Ok(Some((t, e))) => {
            toks.push(t);
            i = e;
        },
        Ok(None) => {
            assert(tokens_view(toks@) =~= seq![]);
            return Ok((toks, 0));
        },
        Err(e) => {
            return Err(e);
        },
    }
    proof {
        lemma_token_advances(s@, 0);
        assert(tokens_view(toks@) =~= seq![toks@[0]@]);
    }
    loop
        invariant
            0 <= i <= s@.len(),
            toks@.len() > 0,
            token_sequence(s@) == tokens_from(s@, i as int, tokens_view(toks@)),
        decreases s@.len() - i,
    {
        let j = skip_spaces(s, i);
        proof {
            lemma_space_end(s@, i as int);
            lemma_token_advances(s@, j as int);
        }
        match lex_token(s, j) {
            Ok(Some((t, e))) => {
                if j == i && needs_space_exec(&toks[toks.len() - 1], &t) {
                    return Err(ParseError);
                }
                let ghost before = toks@;
                toks.push(t);
                assert(tokens_view(toks@) =~= tokens_view(before).push(t@));
                i = e;
            },
            Ok(None) => {
                return Ok((toks, i));
            },
            Err(e) => {
                return Err(e);
            },
        }
    }
}

/// Reads one shell string at the start of `input`: the string and the text
/// after it.
pub fn shell_string(input: &str) -> (r: Result<(ShellString, String), ParseError>)
    ensures
        match string_at(input@, 0) {
            Lexeme::Found(m, e) => r matches Ok((v, rest)) && v@ == m && rest@ == input@.subrange(e, input@.len() as int),
            _ => r is Err,
        },
{
    let s = chars_of(input);
    proof {
        lemma_string_advances(s@, 0);
    }
    match lex_string(&s, 0) {
        Ok(Some((v, e))) => {
            let rest = String::from_str(input.substring_char(e, s.len()));
            Ok((v, rest))
        },
        _ => Err(ParseError),
    }
}

/// Reads the whitespace-separated tokens at the start of `input`: the tokens
/// and the text after the last of them.
pub fn shell_token_parser_impl(input: &str) -> (r: Result<(Vec<ShellToken>, String), ParseError>)
    ensures
        match token_sequence(input@) {
            Some((t, e)) => r matches Ok((v, rest)) && tokens_view(v@) == t && rest@ == input@.subrange(e, input@.len() as int),
            None => r is Err,
        },
{
    let s = chars_of(input);
    match lex_tokens(&s) {
        Ok((v, e)) => {
            proof {
                lemma_token_sequence_bounds(s@);
            }
            let rest = String::from_str(input.substring_char(e, s.len()));
            Ok((v, rest))
        },
        Err(e) => Err(e),
    }
}

/// Reads a whole line into tokens; only whitespace may follow the last token.
pub fn shell_token_parser(input: &str) -> (r: Result<Vec<ShellToken>, ParseError>)
    ensures
        match lex_line(input@) {
            Some(t) => r matches Ok(v) && tokens_view(v@) == t,
            None => r is Err,
        },
{
    let s = chars_of(input);
    match lex_tokens(&s) {
        Ok((v, e)) => {
            proof {
                lemma_token_sequence_bounds(s@);
            }
            if skip_spaces(&s, e) == s.len() {
                Ok(v)
            } else {
                Err(ParseError)
            }
        },
        Err(e) => Err(e),
    }
}

pub proof fn lemma_tokens_from_bounds(s: Seq<char>, i: int, toks: Seq<TokenModel>)
    ensures
        tokens_from(s, i, toks) is Some ==> i <= tokens_from(s, i, toks)->Some_0.1 <= s.len(),
    decreases s.len() - i,
{
    if 0 <= i <= s.len() {
        let j = space_end(s, i);
        lemma_space_end(s, i);
        lemma_token_advances(s, j);
        if let Lexeme::Found(t, e) = token_at(s, j) {
            lemma_tokens_from_bounds(s, e, toks.push(t));
        }
    }
}

/// The tokens at the start of a line end within it.
pub proof fn lemma_token_sequence_bounds(s: Seq<char>)
    ensures
        token_sequence(s) is Some ==> 0 <= token_sequence(s)->Some_0.1 <= s.len(),
{
    lemma_token_advances(s, 0);
    if let Lexeme::Found(t, e) = token_at(s, 0) {
        lemma_tokens_from_bounds(s, e, seq![t]);
    }
}

} // verus!
