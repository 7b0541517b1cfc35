//! The classifier: which nodes of a lock file can be checked against GitHub,
//! and what identifies the comparison to make for each.

use vstd::prelude::*;
use vstd::string::*;
use crate::escape::{
    escape, escape_component, is_component_char, lemma_escape_injective, lemma_escape_is_component,
};
use crate::failure::Fault;
use crate::json::{json_member, json_text, member, text};
use crate::text::{owned, str_equal};

verus! {

/// An input of the flake that is pinned to a revision of a GitHub repository.
#[derive(Debug, PartialEq, Eq)]
pub struct GitHubInput {
    /// The name that the flake gives the input.
    pub name: String,
    /// The node of the lock file that the input resolves to.
    pub id: String,
    pub owner: String,
    pub repo: String,
    /// The branch or tag that the input follows; `HEAD` where none is given.
    pub base_ref: String,
    /// The revision that is locked.
    pub rev: String,
}

/// A tracked input as a plain value.
pub struct InputView {
    pub name: Seq<char>,
    pub id: Seq<char>,
    pub owner: Seq<char>,
    pub repo: Seq<char>,
    pub base_ref: Seq<char>,
    pub rev: Seq<char>,
}

impl View for GitHubInput {
    type V = InputView;

    open spec fn view(&self) -> InputView {
        InputView {
            name: self.name@,
            id: self.id@,
            owner: self.owner@,
            repo: self.repo@,
            base_ref: self.base_ref@,
            rev: self.rev@,
        }
    }
}

impl Clone for GitHubInput {
    fn clone(&self) -> (r: Self)
        ensures
            r == *self,
    {
        GitHubInput {
            name: self.name.clone(),
            id: self.id.clone(),
            owner: self.owner.clone(),
            repo: self.repo.clone(),
            base_ref: self.base_ref.clone(),
            rev: self.rev.clone(),
        }
    }
}

/// An input whose source is of a type that is not checked.
#[derive(Debug, PartialEq, Eq)]
pub struct UnsupportedInputType {
    /// The type that the node states.
    pub kind: String,
}

/// What the classifier makes of one node.
#[derive(Debug, PartialEq, Eq)]
pub enum Classification {
    /// The node can be checked.
    Supported(GitHubInput),
    /// The node is left out, without complaint.
    Unsupported(UnsupportedInputType),
}

/// A classification as a plain value.
pub enum ClassificationView {
    Supported(InputView),
    Unsupported(Seq<char>),
}

impl View for Classification {
    type V = ClassificationView;

    open spec fn view(&self) -> ClassificationView {
        match self {
            Classification::Supported(input) => ClassificationView::Supported(input@),
            Classification::Unsupported(other) => ClassificationView::Unsupported(other.kind@),
        }
    }
}

/// What the classifier reads of a node: each field is there if the lock file
/// holds a string in its place.
#[derive(Debug, PartialEq, Eq)]
pub struct NodeFields {
    /// `original.type`
    pub kind: Option<String>,
    /// `original.owner`
    pub owner: Option<String>,
    /// `original.repo`
    pub repo: Option<String>,
    /// `original.ref`
    pub base_ref: Option<String>,
    /// `locked.rev`
    pub rev: Option<String>,
}

/// The fields of a node as plain values.
pub struct NodeFieldsView {
    pub kind: Option<Seq<char>>,
    pub owner: Option<Seq<char>>,
    pub repo: Option<Seq<char>>,
    pub base_ref: Option<Seq<char>>,
    pub rev: Option<Seq<char>>,
}

impl View for NodeFields {
    type V = NodeFieldsView;

    open spec fn view(&self) -> NodeFieldsView {
        NodeFieldsView {
            kind: self.kind.deep_view(),
            owner: self.owner.deep_view(),
            repo: self.repo.deep_view(),
            base_ref: self.base_ref.deep_view(),
            rev: self.rev.deep_view(),
        }
    }
}

/// The fields that the node under `id` holds in the object of nodes.
pub open spec fn node_fields(nodes: serde_json::Value, id: Seq<char>) -> NodeFieldsView {
    let node = json_member(nodes, id);
    let original = json_member(node, "original"@);
    NodeFieldsView {
        kind: json_text(json_member(original, "type"@)),
        owner: json_text(json_member(original, "owner"@)),
        repo: json_text(json_member(original, "repo"@)),
        base_ref: json_text(json_member(original, "ref"@)),
        rev: json_text(json_member(json_member(node, "locked"@), "rev"@)),
    }
}

/// The classifier's rule. A node without a type is malformed. A node of any
/// type but `github` is unsupported, whatever else it holds. A `github` node
/// needs an owner, a repository and a locked revision, and follows `HEAD`
/// where it names no ref.
pub open spec fn classify(name: Seq<char>, id: Seq<char>, fields: NodeFieldsView) -> Result<
    ClassificationView,
    Fault,
> {
    match fields.kind {
        None => Err(Fault::NoType),
        Some(kind) => if kind != "github"@ {
            Ok(ClassificationView::Unsupported(kind))
        } else if fields.owner is None {
            Err(Fault::NoOwner)
        } else if fields.repo is None {
            Err(Fault::NoRepo)
        } else if fields.rev is None {
            Err(Fault::NoRev)
        } else {
            Ok(
                ClassificationView::Supported(
                    InputView {
                        name,
                        id,
                        owner: fields.owner->0,
                        repo: fields.repo->0,
                        base_ref: match fields.base_ref {
                            Some(r) => r,
                            None => "HEAD"@,
                        },
                        rev: fields.rev->0,
                    },
                ),
            )
        },
    }
}

/// The outcome of a classification as a plain value.
pub open spec fn classified(r: Result<Classification, Fault>) -> Result<ClassificationView, Fault> {
    match r {
        Ok(c) => Ok(c@),
        Err(fault) => Err(fault),
    }
}

/// The four strings that identify one comparison.
pub struct Coordinates {
    pub owner: Seq<char>,
    pub repo: Seq<char>,
    pub base_ref: Seq<char>,
    pub rev: Seq<char>,
}

impl InputView {
    /// What the input is compared by; its name and node play no part.
    pub open spec fn coordinates(self) -> Coordinates {
        Coordinates { owner: self.owner, repo: self.repo, base_ref: self.base_ref, rev: self.rev }
    }

    /// Where the cache keeps the answer for this input.
    pub open spec fn cache_path(self) -> Seq<char> {
        cache_path_of(self.coordinates())
    }
}

/// The path of the cache entry for a comparison, below the directory that
/// holds the program's state: `cache/<owner>/<repo>/<ref>..<rev>`, each of the
/// four escaped into one path component, and nothing behind the revision.
pub open spec fn cache_path_of(c: Coordinates) -> Seq<char> {
    seq!['c', 'a', 'c', 'h', 'e', '/'] + escape(c.owner) + seq!['/'] + escape(c.repo) + seq!['/']
        + escape(c.base_ref) + seq!['.', '.'] + escape(c.rev)
}

/// Reads the fields of the node under `id` out of the object of nodes.
pub fn read_node(nodes: &serde_json::Value, id: &str) -> (fields: NodeFields)
    ensures
        fields@ == node_fields(*nodes, id@),
{
    let node = member(nodes, id);
    let original = member(node, "original");
    let locked = member(node, "locked");
    NodeFields {
        kind: owned(text(member(original, "type"))),
        owner: owned(text(member(original, "owner"))),
        repo: owned(text(member(original, "repo"))),
        base_ref: owned(text(member(original, "ref"))),
        rev: owned(text(member(locked, "rev"))),
    }
}

impl UnsupportedInputType {
    /// What to tell a reader about the input that was left out.
    pub open spec fn message_spec(self) -> Seq<char> {
        "Unsupported input type '"@ + self.kind@ + "'"@
    }

    /// What to tell a reader about the input that was left out.
    pub fn message(&self) -> (m: String)
        ensures
            m@ == self.message_spec(),
    {
        String::from_str("Unsupported input type '").concat(self.kind.as_str()).concat("'")
    }
}

impl GitHubInput {
    /// Classifies the node under `id`, which the flake knows as the input
    /// `name`.
    pub fn new(nodes: &serde_json::Value, name: &str, id: &str) -> (r: Result<
        Classification,
        Fault,
    >)
        ensures
            classified(r) == classify(name@, id@, node_fields(*nodes, id@)),
    {
        GitHubInput::from_fields(name, id, read_node(nodes, id))
    }

    /// Classifies a node by the fields that were read of it.
    pub fn from_fields(name: &str, id: &str, fields: NodeFields) -> (r: Result<
        Classification,
        Fault,
    >)
        ensures
            classified(r) == classify(name@, id@, fields@),
    {
        let kind = match fields.kind {
            Some(kind) => kind,
            None => {
                return Err(Fault::NoType);
            },
        };
        if !str_equal(kind.as_str(), "github") {
            return Ok(Classification::Unsupported(UnsupportedInputType { kind }));
        }
        let owner = match fields.owner {
            Some(owner) => owner,
            None => {
                return Err(Fault::NoOwner);
            },
        };
        let repo = match fields.repo {
            Some(repo) => repo,
            None => {
                return Err(Fault::NoRepo);
            },
        };
        let base_ref = match fields.base_ref {
            Some(base_ref) => base_ref,
            None => String::from_str("HEAD"),
        };
        let rev = match fields.rev {
            Some(rev) => rev,
            None => {
                return Err(Fault::NoRev);
            },
        };
        Ok(
            Classification::Supported(
                GitHubInput {
                    name: String::from_str(name),
                    id: String::from_str(id),
                    owner,
                    repo,
                    base_ref,
                    rev,
                },
            ),
        )
    }

    /// Whether two inputs ask for the same comparison: the same owner,
    /// repository, ref and locked revision, under whatever names.
    pub fn same_comparison(&self, other: &GitHubInput) -> (same: bool)
        ensures
            same == (self@.coordinates() == other@.coordinates()),
    {
        str_equal(self.owner.as_str(), other.owner.as_str()) && str_equal(
            self.repo.as_str(),
            other.repo.as_str(),
        ) && str_equal(self.base_ref.as_str(), other.base_ref.as_str()) && str_equal(
            self.rev.as_str(),
            other.rev.as_str(),
        )
    }

    /// Where the cache keeps the answer for this input, below the directory
    /// that holds the program's state.
    pub fn cache_path(&self) -> (path: String)
        ensures
            path@ == self@.cache_path(),
    {
        proof {
            reveal_strlit("cache/");
            reveal_strlit("/");
            reveal_strlit("..");
        }
        let mut path = String::from_str("cache/");
        assert(path@ =~= seq!['c', 'a', 'c', 'h', 'e', '/']);
        path.append(escape_component(self.owner.as_str()).as_str());
        path.append("/");
        path.append(escape_component(self.repo.as_str()).as_str());
        path.append("/");
        path.append(escape_component(self.base_ref.as_str()).as_str());
        path.append("..");
        path.append(escape_component(self.rev.as_str()).as_str());
        assert(path@ =~= self@.cache_path());
        path
    }
}

/// Classifying a node is a function of the node: whoever classifies the same
/// node under the same name, and whenever, gets the same answer.
pub proof fn lemma_classification_repeats(
    first: Result<Classification, Fault>,
    second: Result<Classification, Fault>,
    nodes: serde_json::Value,
    name: Seq<char>,
    id: Seq<char>,
)
    requires
        classified(first) == classify(name, id, node_fields(nodes, id)),
        classified(second) == classify(name, id, node_fields(nodes, id)),
    ensures
        classified(first) == classified(second),
{
}

/// Only a node of type `github` is tracked, with the fields that it states;
/// a node is unsupported exactly by its type, which the answer carries.
pub proof fn lemma_supported_is_github(name: Seq<char>, id: Seq<char>, fields: NodeFieldsView)
    ensures
        classify(name, id, fields) matches Ok(ClassificationView::Supported(input)) ==> {
            &&& fields.kind == Some("github"@)
            &&& input.name == name
            &&& input.id == id
            &&& fields.owner == Some(input.owner)
            &&& fields.repo == Some(input.repo)
            &&& fields.rev == Some(input.rev)
        },
        classify(name, id, fields) matches Ok(ClassificationView::Unsupported(kind)) ==> {
            &&& fields.kind == Some(kind)
            &&& kind != "github"@
        },
        fields.kind is Some && fields.kind->0 != "github"@ ==> classify(name, id, fields) == Ok::<
            ClassificationView,
            Fault,
        >(ClassificationView::Unsupported(fields.kind->0)),
{
}

/// Where a separator stands in neither of two prefixes, what follows the
/// prefixes can only agree if the prefixes do.
proof fn lemma_split_at_separator(
    a1: Seq<char>,
    t1: Seq<char>,
    a2: Seq<char>,
    t2: Seq<char>,
    sep: char,
)
    requires
        a1 + seq![sep] + t1 == a2 + seq![sep] + t2,
        !a1.contains(sep),
        !a2.contains(sep),
    ensures
        a1 == a2,
        t1 == t2,
{
    let x = a1 + seq![sep] + t1;
    let y = a2 + seq![sep] + t2;
    if a1.len() < a2.len() {
        assert(x[a1.len() as int] == sep);
        assert(y[a1.len() as int] == a2[a1.len() as int]);
        assert(a2.contains(sep));
    }
    if a2.len() < a1.len() {
        assert(y[a2.len() as int] == sep);
        assert(x[a2.len() as int] == a1[a2.len() as int]);
        assert(a1.contains(sep));
    }
    assert(a1 =~= x.subrange(0, a1.len() as int));
    assert(a2 =~= y.subrange(0, a2.len() as int));
    assert(t1 =~= x.subrange(a1.len() as int + 1, x.len() as int));
    assert(t2 =~= y.subrange(a2.len() as int + 1, y.len() as int));
}

/// The cache path, read from the left: each component, its separator, and
/// what follows.
proof fn lemma_cache_path_nested(
    h: Seq<char>,
    o: Seq<char>,
    r: Seq<char>,
    b: Seq<char>,
    v: Seq<char>,
)
    ensures
        h + o + seq!['/'] + r + seq!['/'] + b + seq!['.', '.'] + v == h + (o + seq!['/'] + (r
            + seq!['/'] + (b + seq!['.'] + (seq!['.'] + v)))),
{
    let v3 = seq!['.'] + v;
    let v2 = b + seq!['.'] + v3;
    assert(seq!['.', '.'] =~= seq!['.'] + seq!['.']);
    assert(b + seq!['.', '.'] + v =~= v2);
    assert(r + seq!['/'] + b + seq!['.', '.'] + v =~= r + seq!['/'] + (b + seq!['.', '.'] + v));
    assert(o + seq!['/'] + r + seq!['/'] + b + seq!['.', '.'] + v =~= o + seq!['/'] + (r
        + seq!['/'] + b + seq!['.', '.'] + v));
    assert(h + o + seq!['/'] + r + seq!['/'] + b + seq!['.', '.'] + v =~= h + (o + seq!['/'] + r
        + seq!['/'] + b + seq!['.', '.'] + v));
}

/// What follows a common beginning agrees where the wholes agree.
proof fn lemma_same_beginning(h: Seq<char>, x: Seq<char>, y: Seq<char>)
    requires
        h + x == h + y,
    ensures
        x == y,
{
    assert(x =~= (h + x).skip(h.len() as int));
    assert(y =~= (h + y).skip(h.len() as int));
}

/// No two comparisons share a cache entry.
pub proof fn lemma_cache_path_injective(a: Coordinates, b: Coordinates)
    requires
        cache_path_of(a) == cache_path_of(b),
    ensures
        a == b,
{
    let head = seq!['c', 'a', 'c', 'h', 'e', '/'];
    let a3 = seq!['.'] + escape(a.rev);
    let a2 = escape(a.base_ref) + seq!['.'] + a3;
    let a1 = escape(a.repo) + seq!['/'] + a2;
    let a0 = escape(a.owner) + seq!['/'] + a1;
    let b3 = seq!['.'] + escape(b.rev);
    let b2 = escape(b.base_ref) + seq!['.'] + b3;
    let b1 = escape(b.repo) + seq!['/'] + b2;
    let b0 = escape(b.owner) + seq!['/'] + b1;
    assert(head + a0 == head + b0) by {
        lemma_cache_path_nested(
            head,
            escape(a.owner),
            escape(a.repo),
            escape(a.base_ref),
            escape(a.rev),
        );
        lemma_cache_path_nested(
            head,
            escape(b.owner),
            escape(b.repo),
            escape(b.base_ref),
            escape(b.rev),
        );
    }
    lemma_same_beginning(head, a0, b0);
    assert(escape(a.owner) == escape(b.owner) && a1 == b1) by {
        lemma_escape_is_component(a.owner);
        lemma_escape_is_component(b.owner);
        lemma_split_at_separator(escape(a.owner), a1, escape(b.owner), b1, '/');
    }
    assert(escape(a.repo) == escape(b.repo) && a2 == b2) by {
        lemma_escape_is_component(a.repo);
        lemma_escape_is_component(b.repo);
        lemma_split_at_separator(escape(a.repo), a2, escape(b.repo), b2, '/');
    }
    assert(escape(a.base_ref) == escape(b.base_ref) && a3 == b3) by {
        lemma_escape_is_component(a.base_ref);
        lemma_escape_is_component(b.base_ref);
        lemma_split_at_separator(escape(a.base_ref), a3, escape(b.base_ref), b3, '.');
    }
    lemma_same_beginning(seq!['.'], escape(a.rev), escape(b.rev));
    lemma_escape_injective(a.owner, b.owner);
    lemma_escape_injective(a.repo, b.repo);
    lemma_escape_injective(a.base_ref, b.base_ref);
    lemma_escape_injective(a.rev, b.rev);
}

/// Two inputs share a cache entry exactly when they ask for the same
/// comparison, whatever their names are.
pub proof fn lemma_one_entry_per_comparison(a: InputView, b: InputView)
    ensures
        a.cache_path() == b.cache_path() <==> a.coordinates() == b.coordinates(),
{
    if a.cache_path() == b.cache_path() {
        lemma_cache_path_injective(a.coordinates(), b.coordinates());
    }
}

/// The characters that a cache path is made of: those of its components, and
/// the `/` and `.` that the layout itself places.
pub open spec fn is_path_char(c: char) -> bool {
    is_component_char(c) || c == '/' || c == '.'
}

/// A cache path holds nothing but path characters, whatever the lock file
/// holds in the four strings.
pub proof fn lemma_cache_path_chars(c: Coordinates)
    ensures
        forall|i: int|
            0 <= i < cache_path_of(c).len() ==> is_path_char(#[trigger] cache_path_of(c)[i]),
{
    let head = seq!['c', 'a', 'c', 'h', 'e', '/'];
    lemma_escape_is_component(c.owner);
    lemma_escape_is_component(c.repo);
    lemma_escape_is_component(c.base_ref);
    lemma_escape_is_component(c.rev);
    lemma_all_path_chars(head, escape(c.owner));
    lemma_all_path_chars(head + escape(c.owner), seq!['/']);
    lemma_all_path_chars(head + escape(c.owner) + seq!['/'], escape(c.repo));
    lemma_all_path_chars(head + escape(c.owner) + seq!['/'] + escape(c.repo), seq!['/']);
    lemma_all_path_chars(
        head + escape(c.owner) + seq!['/'] + escape(c.repo) + seq!['/'],
        escape(c.base_ref),
    );
    lemma_all_path_chars(
        head + escape(c.owner) + seq!['/'] + escape(c.repo) + seq!['/'] + escape(c.base_ref),
        seq!['.', '.'],
    );
    lemma_all_path_chars(
        head + escape(c.owner) + seq!['/'] + escape(c.repo) + seq!['/'] + escape(c.base_ref)
            + seq!['.', '.'],
        escape(c.rev),
    );
}

/// All of whose characters are path characters.
spec fn all_path_chars(s: Seq<char>) -> bool {
    forall|i: int| 0 <= i < s.len() ==> is_path_char(#[trigger] s[i])
}

proof fn lemma_all_path_chars(a: Seq<char>, b: Seq<char>)
    requires
        all_path_chars(a),
        all_path_chars(b),
    ensures
        all_path_chars(a + b),
{
    assert forall|i: int| 0 <= i < (a + b).len() implies is_path_char(#[trigger] (a + b)[i]) by {
        if i < a.len() {
            assert((a + b)[i] == a[i]);
        } else {
            assert((a + b)[i] == b[i - a.len()]);
        }
    }
}

} // verus!
