use vstd::prelude::*;
use vstd::string::StringExecFns;
use crate::command::{ExpandedShellToken, ExpandedModel, expanded_view};
use crate::shell::{
    ShellString, StringComponent, ShellToken, ComponentModel, StringModel, TokenModel,
    components_view, tokens_view,
};

verus! {

/// The variables that a list of bindings defines: a later binding of a name
/// hides an earlier one.
pub open spec fn bindings_map(v: Seq<(String, String)>) -> Map<Seq<char>, Seq<char>>
    decreases v.len(),
{
    if v.len() == 0 {
        Map::empty()
    } else {
        bindings_map(v.drop_last()).insert(v.last().0@, v.last().1@)
    }
}

/// The text that a component stands for: a variable that is not defined
/// stands for the empty string.
pub open spec fn resolve(c: ComponentModel, vars: Map<Seq<char>, Seq<char>>) -> Seq<char> {
    match c {
        ComponentModel::Text(t) => t,
        ComponentModel::Var(n) => if vars.contains_key(n) {
            vars[n]
        } else {
            seq![]
        },
    }
}

/// The components' texts, concatenated in order.
pub open spec fn expand_components(cs: Seq<ComponentModel>, vars: Map<Seq<char>, Seq<char>>) -> Seq<char>
    decreases cs.len(),
{
    if cs.len() == 0 {
        seq![]
    } else {
        expand_components(cs.drop_last(), vars) + resolve(cs.last(), vars)
    }
}

/// The text of a shell string under the given variables.
pub open spec fn expand(s: StringModel, vars: Map<Seq<char>, Seq<char>>) -> Seq<char> {
    match s {
        StringModel::Literal(t) => t,
        StringModel::Interpolated(cs) => expand_components(cs, vars),
    }
}

/// A token with its string, if any, expanded.
pub open spec fn expand_token(t: TokenModel, vars: Map<Seq<char>, Seq<char>>) -> ExpandedModel {
    match t {
        TokenModel::Str(s) => ExpandedModel::Str(expand(s, vars)),
        TokenModel::Pipe => ExpandedModel::Pipe,
        TokenModel::Assign => ExpandedModel::Assign,
    }
}

/// Expanding two runs of components one after the other gives their texts
/// one after the other.
pub proof fn lemma_expand_concat(a: Seq<ComponentModel>, b: Seq<ComponentModel>, vars: Map<Seq<char>, Seq<char>>)
    ensures
        expand_components(a + b, vars) == expand_components(a, vars) + expand_components(b, vars),
    decreases b.len(),
{
    if b.len() == 0 {
        assert(a + b =~= a);
        assert(expand_components(a, vars) + Seq::<char>::empty() =~= expand_components(a, vars));
    } else {
        assert((a + b).drop_last() =~= a + b.drop_last());
        lemma_expand_concat(a, b.drop_last(), vars);
        assert(expand_components(a + b, vars) =~= expand_components(a, vars) + expand_components(b, vars));
    }
}

/// A reference to a variable that is not defined expands to nothing,
/// wherever it stands: expansion never fails on it and adds no text.
pub proof fn undefined_variable_expands_to_nothing(
    before: Seq<ComponentModel>,
    after: Seq<ComponentModel>,
    name: Seq<char>,
    vars: Map<Seq<char>, Seq<char>>,
)
    requires
        !vars.contains_key(name),
    ensures
        expand_components(before + seq![ComponentModel::Var(name)] + after, vars)
            == expand_components(before + after, vars),
{
    let v = seq![ComponentModel::Var(name)];
    lemma_expand_concat(before + v, after, vars);
    lemma_expand_concat(before, v, vars);
    lemma_expand_concat(before, after, vars);
    assert(v.drop_last() =~= Seq::<ComponentModel>::empty());
    assert(expand_components(v.drop_last(), vars) == Seq::<char>::empty());
    assert(resolve(v.last(), vars) == Seq::<char>::empty());
    assert(expand_components(v, vars) =~= Seq::<char>::empty() + Seq::<char>::empty());
    assert(expand_components(before, vars) + Seq::<char>::empty() =~= expand_components(before, vars));
}

/// The state of a shell session: its variables, the buffer that runs from
/// one stage of a pipeline to the next, and whether that buffer is still to
/// be printed once the pipeline ends.
pub struct Env {
    pub bindings: Vec<(String, String)>,
    pub stdin: Vec<u8>,
    pub should_print: bool,
}

impl Env {
    /// The variables defined so far.
    pub open spec fn vars(&self) -> Map<Seq<char>, Seq<char>> {
        bindings_map(self.bindings@)
    }

    /// A session with no variables and an empty buffer.
    pub fn new() -> (r: Env)
        ensures
            r.vars() == Map::<Seq<char>, Seq<char>>::empty(),
            r.stdin@ == Seq::<u8>::empty(),
            r.should_print,
    {
        Env { bindings: Vec::new(), stdin: Vec::new(), should_print: true }
    }

    /// Empties the buffer.
    pub fn clear_stdin(&mut self)
        ensures
            final(self).stdin@ == Seq::<u8>::empty(),
            final(self).vars() == old(self).vars(),
            final(self).should_print == old(self).should_print,
    {
        self.stdin = Vec::new();
    }

    /// Binds `var` to `value`, replacing any earlier binding of it.
    pub fn declare(&mut self, var: String, value: String)
        ensures
            final(self).vars() == old(self).vars().insert(var@, value@),
            final(self).stdin == old(self).stdin,
            final(self).should_print == old(self).should_print,
    {
        let ghost before = self.bindings@;
        self.bindings.push((var, value));
        assert(self.bindings@.drop_last() =~= before);
    }

    /// The value of `variable`, if it is defined.
    pub fn lookup_variable(&self, variable: String) -> (r: Option<String>)
        ensures
            r is Some <==> self.vars().contains_key(variable@),
            r is Some ==> r->Some_0@ == self.vars()[variable@],
    {
        let mut i: usize = self.bindings.len();
        assert(self.bindings@.subrange(0, i as int) =~= self.bindings@);
        while i > 0
            invariant
                i <= self.bindings@.len(),
                bindings_map(self.bindings@.subrange(0, i as int)).contains_key(variable@)
                    == self.vars().contains_key(variable@),
                bindings_map(self.bindings@.subrange(0, i as int)).contains_key(variable@)
                    ==> bindings_map(self.bindings@.subrange(0, i as int))[variable@]
                    == self.vars()[variable@],
            decreases i,
        {
            let ghost prefix = self.bindings@.subrange(0, i as int);
            assert(prefix.drop_last() =~= self.bindings@.subrange(0, i - 1));
            if self.bindings[i - 1].0 == variable {
                return Some(self.bindings[i - 1].1.clone());
            }
            i = i - 1;
        }
        assert(self.bindings@.subrange(0, 0) =~= Seq::<(String, String)>::empty());
        None
    }

    /// The text of `ss`: a literal as it is; otherwise its components in
    /// order, each variable replaced by its value or by nothing.
    pub fn expand_string(&self, ss: ShellString) -> (r: String)
        ensures
            r@ == expand(ss@, self.vars()),
    {
        self.expand_shell_string(&ss)
    }

    fn expand_shell_string(&self, ss: &ShellString) -> (r: String)
        ensures
            r@ == expand(ss@, self.vars()),
    {
        match ss {
            ShellString::WithoutInterpolation(literal) => literal.clone(),
            ShellString::WithInterpolation(v) => {
                let mut tmp = String::new();
                let mut i: usize = 0;
                while i < v.len()
                    invariant
                        i <= v@.len(),
                        tmp@ == expand_components(components_view(v@).take(i as int), self.vars()),
                    decreases v@.len() - i,
                {
                    assert(components_view(v@).take(i + 1).drop_last() =~= components_view(v@).take(i as int));
                    match &v[i] {
                        StringComponent::StringLiteral(literal) => {
                            tmp.append(literal.as_str());
                        },
                        StringComponent::VariableName(variable) => {
                            match self.lookup_variable(variable.clone()) {
                                Some(value) => {
                                    tmp.append(value.as_str());
                                },
                                None => {
                                    assert(tmp@ + seq![] =~= tmp@);
                                },
                            }
                        },
                    }
                    i = i + 1;
                }
                assert(components_view(v@).take(v@.len() as int) =~= components_view(v@));
                tmp
            },
        }
    }

    /// Expands every string token; pipes and assignments pass unchanged, in
    /// order.
    pub fn expand_command(&self, tokens: Vec<ShellToken>) -> (r: Vec<ExpandedShellToken>)
        ensures
            expanded_view(r@) == tokens_view(tokens@).map_values(|t: TokenModel| expand_token(t, self.vars())),
    {
        let mut r: Vec<ExpandedShellToken> = Vec::new();
        let mut i: usize = 0;
        while i < tokens.len()
            invariant
                i <= tokens@.len(),
                expanded_view(r@) == tokens_view(tokens@).take(i as int).map_values(
                    |t: TokenModel| expand_token(t, self.vars()),
                ),
            decreases tokens@.len() - i,
        {
            let e = match &tokens[i] {
                ShellToken::StringToken(s) => ExpandedShellToken::StringToken(self.expand_shell_string(s)),
                ShellToken::Pipe => ExpandedShellToken::Pipe,
                ShellToken::Assign => ExpandedShellToken::Assign,
            };
            assert(e@ == expand_token(tokens@[i as int]@, self.vars()));
            let ghost before = r@;
            r.push(e);
            assert(tokens_view(tokens@).take(i + 1) =~= tokens_view(tokens@).take(i as int).push(tokens@[i as int]@));
            assert(expanded_view(r@) =~= expanded_view(before).push(e@));
            assert(expanded_view(r@) =~= tokens_view(tokens@).take(i + 1).map_values(
                |t: TokenModel| expand_token(t, self.vars()),
            ));
            i = i + 1;
        }
        assert(tokens_view(tokens@).take(tokens@.len() as int) =~= tokens_view(tokens@));
        r
    }
}

} // verus!
