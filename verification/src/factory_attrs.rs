//! The arguments of the connector attributes: `id = "...", category = "..."`.

use vstd::prelude::*;

use crate::job::opt_view;
use crate::text;

verus! {

/// A token of an attribute's arguments.
#[derive(Debug)]
pub enum AttrToken {
    Ident(String),
    Punct(char),
    /// A literal as it is written.
    Literal(String),
    /// Anything in brackets.
    Group,
}

/// The mathematical value of a token.
#[verifier::ext_equal]
pub enum TokenV {
    Ident(Seq<char>),
    Punct(char),
    Literal(Seq<char>),
    Group,
}

impl View for AttrToken {
    type V = TokenV;

    open spec fn view(&self) -> TokenV {
        match self {
            AttrToken::Ident(s) => TokenV::Ident(s@),
            AttrToken::Punct(c) => TokenV::Punct(*c),
            AttrToken::Literal(s) => TokenV::Literal(s@),
            AttrToken::Group => TokenV::Group,
        }
    }
}

/// The tokens behind a list.
pub open spec fn tokens_view(v: Seq<AttrToken>) -> Seq<TokenV> {
    v.map_values(|t: AttrToken| t@)
}

/// The outside stream of tokens.
#[verifier::external_type_specification]
#[verifier::external_body]
pub struct ExTokenStream(proc_macro2::TokenStream);

/// The tokens that a stream holds, one after the other, each group as one.
pub uninterp spec fn tokens_in(stream: proc_macro2::TokenStream) -> Seq<TokenV>;

/// Takes a stream apart with the `IntoIterator` of `proc_macro2::TokenStream`, which
/// gives the tokens that the stream holds, in their order. What they are is not stated.
#[verifier::external_body]
fn trees(stream: proc_macro2::TokenStream) -> (r: Vec<AttrToken>)
    ensures
        tokens_view(r@) == tokens_in(stream),
{
    let token = |t: proc_macro2::TokenTree| match t {
        proc_macro2::TokenTree::Ident(i) => AttrToken::Ident(i.to_string()),
        proc_macro2::TokenTree::Punct(p) => AttrToken::Punct(p.as_char()),
        proc_macro2::TokenTree::Literal(l) => AttrToken::Literal(l.to_string()),
        proc_macro2::TokenTree::Group(_) => AttrToken::Group,
    };
    stream.into_iter().map(token).collect()
}

/// What an attribute sets.
#[derive(Debug)]
pub struct Attrs {
    pub id: Option<String>,
    pub category: Option<String>,
}

/// The mathematical value of what an attribute sets.
#[verifier::ext_equal]
pub struct AttrsV {
    pub id: Option<Seq<char>>,
    pub category: Option<Seq<char>>,
}

impl View for Attrs {
    type V = AttrsV;

    open spec fn view(&self) -> AttrsV {
        AttrsV { id: opt_view(self.id), category: opt_view(self.category) }
    }
}

/// The value that is set at a position: a name, an equals sign, and a literal, which
/// loses its quotes.
pub open spec fn setting_at(t: Seq<TokenV>, i: int, name: Seq<char>) -> Option<Seq<char>> {
    if 0 <= i && i + 2 < t.len() && t[i] == TokenV::Ident(name) && t[i + 1] == TokenV::Punct('=') {
        match t[i + 2] {
            TokenV::Literal(s) => Some(text::trimmed_of(s, '"')),
            _ => None,
        }
    } else {
        None
    }
}

/// The value that is set last among the first `n` positions.
pub open spec fn last_setting(t: Seq<TokenV>, n: nat, name: Seq<char>) -> Option<Seq<char>>
    decreases n,
{
    if n == 0 {
        None
    } else {
        match setting_at(t, n - 1, name) {
            Some(v) => Some(v),
            None => last_setting(t, (n - 1) as nat, name),
        }
    }
}

/// What the tokens of an attribute set.
pub open spec fn attrs_of(t: Seq<TokenV>) -> AttrsV {
    AttrsV { id: last_setting(t, t.len(), "id"@), category: last_setting(t, t.len(), "category"@) }
}

fn find_setting(tokens: &Vec<AttrToken>, i: usize, name: &str) -> (r: Option<String>)
    requires
        i < tokens@.len(),
    ensures
        opt_view(r) == setting_at(tokens_view(tokens@), i as int, name@),
{
    let ghost t = tokens_view(tokens@);
    let n: usize = tokens.len();
    if n - i <= 2 {
        return None;
    }
    proof {
        assert(t[i as int] == tokens@[i as int]@);
        assert(t[i + 1] == tokens@[i + 1]@);
        assert(t[i + 2] == tokens@[i + 2]@);
    }
    let named: bool = match &tokens[i] {
        AttrToken::Ident(s) => text::same(s.as_str(), name),
        _ => false,
    };
    let equals: bool = match &tokens[i + 1] {
        AttrToken::Punct(c) => *c == '=',
        _ => false,
    };
    if named && equals {
        match &tokens[i + 2] {
            AttrToken::Literal(s) => Some(text::trim_of(s.as_str(), '"')),
            _ => None,
        }
    } else {
        None
    }
}

impl Attrs {
    /// What the arguments of an attribute set.
    pub fn parse(tokens: proc_macro2::TokenStream) -> (r: Self)
        ensures
            r@ == attrs_of(tokens_in(tokens)),
    {
        let all = trees(tokens);
        Attrs::read(&all)
    }

    /// What some tokens set.
    pub fn read(tokens: &Vec<AttrToken>) -> (r: Self)
        ensures
            r@ == attrs_of(tokens_view(tokens@)),
    {
        let ghost t = tokens_view(tokens@);
        let mut id: Option<String> = None;
        let mut category: Option<String> = None;
        let mut i: usize = 0;
        while i < tokens.len()
            invariant
                i <= tokens@.len(),
                t == tokens_view(tokens@),
                opt_view(id) == last_setting(t, i as nat, "id"@),
                opt_view(category) == last_setting(t, i as nat, "category"@),
            decreases tokens@.len() - i,
        {
            match find_setting(tokens, i, "id") {
                Some(v) => {
                    id = Some(v);
                },
                None => {},
            }
            match find_setting(tokens, i, "category") {
                Some(v) => {
                    category = Some(v);
                },
                None => {},
            }
            i += 1;
        }
        Attrs { id, category }
    }

    /// The id and the category of a connector; what is not set has a default.
    pub fn factory(&self, kind: FactoryKind) -> (r: (String, String))
        ensures
            r.0@ == match self@.id {
                Some(i) => i,
                None => "unknown"@,
            },
            r.1@ == match self@.category {
                Some(c) => c,
                None => default_category(kind),
            },
    {
        let id = match &self.id {
            Some(i) => i.clone(),
            None => text::owned("unknown"),
        };
        let category = match &self.category {
            Some(c) => c.clone(),
            None => match kind {
                FactoryKind::Source => text::owned("source"),
                FactoryKind::Sink => text::owned("sink"),
                FactoryKind::Transform => text::owned("transform"),
            },
        };
        (id, category)
    }
}

/// What a connector is.
#[derive(Debug, Clone, Copy, PartialEq, Eq, Structural)]
pub enum FactoryKind {
    Source,
    Sink,
    Transform,
}

/// The category of a connector that sets none.
pub open spec fn default_category(kind: FactoryKind) -> Seq<char> {
    match kind {
        FactoryKind::Source => "source"@,
        FactoryKind::Sink => "sink"@,
        FactoryKind::Transform => "transform"@,
    }
}

/// A setting is read wherever it stands among the arguments, when nothing behind it
/// sets the same again.
pub proof fn law_setting_is_read(t: Seq<TokenV>, i: int, name: Seq<char>, value: Seq<char>)
    requires
        setting_at(t, i, name) == Some(value),
        forall|k: int| i < k < t.len() ==> #[trigger] setting_at(t, k, name) is None,
    ensures
        last_setting(t, t.len(), name) == Some(value),
{
    lemma_setting(t, i, t.len(), name, value);
}

proof fn lemma_setting(t: Seq<TokenV>, i: int, n: nat, name: Seq<char>, value: Seq<char>)
    requires
        setting_at(t, i, name) == Some(value),
        i < n <= t.len(),
        forall|k: int| i < k < t.len() ==> #[trigger] setting_at(t, k, name) is None,
    ensures
        last_setting(t, n, name) == Some(value),
    decreases n,
{
    if i < n - 1 {
        assert(setting_at(t, n - 1, name) is None);
        lemma_setting(t, i, (n - 1) as nat, name, value);
    }
}

} // verus!
