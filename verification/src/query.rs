//! The matches of a query in a syntax tree, as plain values.
use vstd::prelude::*;

use crate::text::same_text;

verus! {

/// A captured node: the name of the capture and the place of the node in the
/// depth-first order of the tree.
#[derive(Debug, PartialEq, Eq)]
pub struct Capture {
    pub name: String,
    pub node: usize,
}

/// A match of a query: its captures, in order.
#[derive(Debug, PartialEq, Eq)]
pub struct QueryMatch {
    pub captures: Vec<Capture>,
}

#[verifier::ext_equal]
pub struct CaptureView {
    pub name: Seq<char>,
    pub node: int,
}

impl View for Capture {
    type V = CaptureView;

    open spec fn view(&self) -> CaptureView {
        CaptureView { name: self.name@, node: self.node as int }
    }
}

impl View for QueryMatch {
    type V = Seq<CaptureView>;

    open spec fn view(&self) -> Seq<CaptureView> {
        self.captures@.map_values(|c: Capture| c@)
    }
}

/// The captures of each of `matches`.
pub open spec fn match_views(matches: Seq<QueryMatch>) -> Seq<Seq<CaptureView>> {
    matches.map_values(|m: QueryMatch| m@)
}

/// Whether all captured nodes are among the first `count`.
pub open spec fn captures_within(captures: Seq<CaptureView>, count: nat) -> bool {
    forall|i: int| 0 <= i < captures.len() ==> 0 <= (#[trigger] captures[i]).node < count
}

/// Whether all nodes that `matches` capture are among the first `count`.
pub open spec fn matches_within(matches: Seq<Seq<CaptureView>>, count: nat) -> bool {
    forall|i: int| 0 <= i < matches.len() ==> captures_within(#[trigger] matches[i], count)
}

/// What the queries of a grammar match in a tree; none for a query that the
/// grammar does not have.
#[derive(Debug, PartialEq, Eq)]
pub struct MatchSet {
    pub functions: Option<Vec<QueryMatch>>,
    pub classes: Option<Vec<QueryMatch>>,
    pub imports: Option<Vec<QueryMatch>>,
    pub calls: Option<Vec<QueryMatch>>,
}

#[verifier::ext_equal]
pub struct MatchSetView {
    pub functions: Option<Seq<Seq<CaptureView>>>,
    pub classes: Option<Seq<Seq<CaptureView>>>,
    pub imports: Option<Seq<Seq<CaptureView>>>,
    pub calls: Option<Seq<Seq<CaptureView>>>,
}

impl View for MatchSet {
    type V = MatchSetView;

    open spec fn view(&self) -> MatchSetView {
        MatchSetView {
            functions: optional_matches(self.functions),
            classes: optional_matches(self.classes),
            imports: optional_matches(self.imports),
            calls: optional_matches(self.calls),
        }
    }
}

impl MatchSetView {
    /// Whether all captured nodes are among the first `count`.
    pub open spec fn within(self, count: nat) -> bool {
        &&& optional_within(self.functions, count)
        &&& optional_within(self.classes, count)
        &&& optional_within(self.imports, count)
        &&& optional_within(self.calls, count)
    }
}

/// The captures of each of the matches, if there are any.
pub open spec fn optional_matches(matches: Option<Vec<QueryMatch>>) -> Option<
    Seq<Seq<CaptureView>>,
> {
    match matches {
        Some(m) => Some(match_views(m@)),
        None => None,
    }
}

/// Whether all nodes that the matches capture are among the first `count`.
pub open spec fn optional_within(matches: Option<Seq<Seq<CaptureView>>>, count: nat) -> bool {
    matches matches Some(m) ==> matches_within(m, count)
}

/// What a capture stands for.
#[derive(Debug, Clone, Copy, PartialEq, Eq)]
pub enum Role {
    /// The name of a function or class.
    Name,
    /// A function as a whole.
    Body,
    /// A class as a whole.
    Class,
    /// The module that is imported from.
    Source,
    /// The entity that is imported.
    Target,
    /// An import as a whole.
    Import,
    /// The name that is called.
    Callee,
}

impl Role {
    /// Whether a capture with that name has the role.
    pub open spec fn fits(self, name: Seq<char>) -> bool {
        match self {
            Role::Name => name == "name"@,
            Role::Body => name == "func"@ || name == "arrow"@ || name == "method"@ || name
                == "func_expr"@,
            Role::Class => name == "class"@,
            Role::Source => name == "source"@,
            Role::Target => name == "target"@,
            Role::Import => name == "import"@,
            Role::Callee => name == "callee"@,
        }
    }

    /// Whether a capture with that name has the role.
    pub fn is_fit(self, name: &str) -> (yes: bool)
        ensures
            yes == self.fits(name@),
    {
        match self {
            Role::Name => same_text(name, "name"),
            Role::Body => same_text(name, "func") || same_text(name, "arrow") || same_text(
                name,
                "method",
            ) || same_text(name, "func_expr"),
            Role::Class => same_text(name, "class"),
            Role::Source => same_text(name, "source"),
            Role::Target => same_text(name, "target"),
            Role::Import => same_text(name, "import"),
            Role::Callee => same_text(name, "callee"),
        }
    }
}

/// The node of the last capture with the role.
pub open spec fn last_in_role(captures: Seq<CaptureView>, role: Role) -> Option<int>
    decreases captures.len(),
{
    if captures.len() == 0 {
        None
    } else if role.fits(captures.last().name) {
        Some(captures.last().node)
    } else {
        last_in_role(captures.drop_last(), role)
    }
}

/// The node of the first capture with the role.
pub open spec fn first_in_role(captures: Seq<CaptureView>, role: Role) -> Option<int>
    decreases captures.len(),
{
    if captures.len() == 0 {
        None
    } else if role.fits(captures.first().name) {
        Some(captures.first().node)
    } else {
        first_in_role(captures.drop_first(), role)
    }
}

impl QueryMatch {
    /// The node of the last capture with the role.
    pub fn last_node(&self, role: Role) -> (node: Option<usize>)
        ensures
            match node {
                Some(n) => last_in_role(self@, role) == Some(n as int) && exists|i: int|
                    0 <= i < self@.len() && (#[trigger] self@[i]).node == n,
                None => last_in_role(self@, role) is None,
            },
    {
        let mut i: usize = self.captures.len();
        assert(self@.take(i as int) =~= self@);
        while i > 0
            invariant
                i <= self@.len() == self.captures@.len(),
                last_in_role(self@, role) == last_in_role(self@.take(i as int), role),
            decreases i,
        {
            let ghost seen = self@.take(i as int);
            assert(seen.drop_last() =~= self@.take(i - 1));
            i -= 1;
            assert(seen.last() == self@[i as int]);
            assert(self@[i as int] == self.captures@[i as int]@);
            if role.is_fit(self.captures[i].name.as_str()) {
                return Some(self.captures[i].node);
            }
        }
        None
    }

    /// The node of the first capture with the role.
    pub fn first_node(&self, role: Role) -> (node: Option<usize>)
        ensures
            match node {
                Some(n) => first_in_role(self@, role) == Some(n as int) && exists|i: int|
                    0 <= i < self@.len() && (#[trigger] self@[i]).node == n,
                None => first_in_role(self@, role) is None,
            },
    {
        let mut i: usize = 0;
        assert(self@.skip(0) =~= self@);
        while i < self.captures.len()
            invariant
                i <= self@.len() == self.captures@.len(),
                first_in_role(self@, role) == first_in_role(self@.skip(i as int), role),
            decreases self@.len() - i,
        {
            let ghost rest = self@.skip(i as int);
            assert(rest.drop_first() =~= self@.skip(i + 1));
            assert(rest.first() == self@[i as int]);
            assert(self@[i as int] == self.captures@[i as int]@);
            if role.is_fit(self.captures[i].name.as_str()) {
                return Some(self.captures[i].node);
            }
            i += 1;
        }
        None
    }
}

/// The names that captures have by their role.
pub proof fn law_names_of_roles(name: Seq<char>)
    ensures
        Role::Name.fits(name) <==> name == "name"@,
        Role::Body.fits(name) <==> seq!["func"@, "arrow"@, "method"@, "func_expr"@].contains(name),
        Role::Class.fits(name) <==> name == "class"@,
        Role::Source.fits(name) <==> name == "source"@,
        Role::Target.fits(name) <==> name == "target"@,
        Role::Import.fits(name) <==> name == "import"@,
        Role::Callee.fits(name) <==> name == "callee"@,
{
    let bodies = seq!["func"@, "arrow"@, "method"@, "func_expr"@];
    assert(bodies[0] == "func"@ && bodies[1] == "arrow"@ && bodies[2] == "method"@ && bodies[3]
        == "func_expr"@);
}

/// The last capture in a role is the one after which no other has the role; where
/// no capture has the role, there is none.
pub proof fn law_last_in_role(captures: Seq<CaptureView>, role: Role)
    ensures
        match last_in_role(captures, role) {
            Some(node) => exists|i: int|
                {
                    &&& 0 <= i < captures.len()
                    &&& role.fits(captures[i].name)
                    &&& #[trigger] captures[i].node == node
                    &&& forall|k: int| i < k < captures.len() ==> !role.fits(
                        (#[trigger] captures[k]).name,
                    )
                },
            None => forall|k: int| 0 <= k < captures.len() ==> !role.fits(
                (#[trigger] captures[k]).name,
            ),
        },
    decreases captures.len(),
{
    if captures.len() > 0 {
        let last = captures.len() - 1;
        if role.fits(captures.last().name) {
            assert(captures[last].node == captures.last().node);
        } else {
            let rest = captures.drop_last();
            law_last_in_role(rest, role);
            match last_in_role(rest, role) {
                Some(node) => {
                    let i = choose|i: int|
                        {
                            &&& 0 <= i < rest.len()
                            &&& role.fits(rest[i].name)
                            &&& #[trigger] rest[i].node == node
                            &&& forall|k: int| i < k < rest.len() ==> !role.fits(
                                (#[trigger] rest[k]).name,
                            )
                        };
                    assert(captures[i] == rest[i]);
                    assert forall|k: int| i < k < captures.len() implies !role.fits(
                        (#[trigger] captures[k]).name,
                    ) by {
                        if k < last {
                            assert(rest[k] == captures[k]);
                        }
                    }
                },
                None => {
                    assert forall|k: int| 0 <= k < captures.len() implies !role.fits(
                        (#[trigger] captures[k]).name,
                    ) by {
                        if k < last {
                            assert(rest[k] == captures[k]);
                        }
                    }
                },
            }
        }
    }
}

/// The first capture in a role is the one before which no other has the role;
/// where no capture has the role, there is none.
pub proof fn law_first_in_role(captures: Seq<CaptureView>, role: Role)
    ensures
        match first_in_role(captures, role) {
            Some(node) => exists|i: int|
                {
                    &&& 0 <= i < captures.len()
                    &&& role.fits(captures[i].name)
                    &&& #[trigger] captures[i].node == node
                    &&& forall|k: int| 0 <= k < i ==> !role.fits((#[trigger] captures[k]).name)
                },
            None => forall|k: int| 0 <= k < captures.len() ==> !role.fits(
                (#[trigger] captures[k]).name,
            ),
        },
    decreases captures.len(),
{
    if captures.len() > 0 {
        if role.fits(captures.first().name) {
            assert(captures[0].node == captures.first().node);
        } else {
            let rest = captures.drop_first();
            law_first_in_role(rest, role);
            match first_in_role(rest, role) {
                Some(node) => {
                    let i = choose|i: int|
                        {
                            &&& 0 <= i < rest.len()
                            &&& role.fits(rest[i].name)
                            &&& #[trigger] rest[i].node == node
                            &&& forall|k: int| 0 <= k < i ==> !role.fits(
                                (#[trigger] rest[k]).name,
                            )
                        };
                    assert(captures[i + 1] == rest[i]);
                    assert forall|k: int| 0 <= k < i + 1 implies !role.fits(
                        (#[trigger] captures[k]).name,
                    ) by {
                        if k > 0 {
                            assert(rest[k - 1] == captures[k]);
                        }
                    }
                },
                None => {
                    assert forall|k: int| 0 <= k < captures.len() implies !role.fits(
                        (#[trigger] captures[k]).name,
                    ) by {
                        if k > 0 {
                            assert(rest[k - 1] == captures[k]);
                        }
                    }
                },
            }
        }
    }
}

/// The views of captures and matches hold their names and nodes, in order.
pub proof fn law_views_hold_the_captures(found: QueryMatch, matches: Seq<QueryMatch>, i: int)
    ensures
        found@.len() == found.captures@.len(),
        0 <= i < found@.len() ==> found@[i].name == found.captures@[i].name@ && found@[i].node
            == found.captures@[i].node,
        match_views(matches).len() == matches.len(),
        0 <= i < matches.len() ==> match_views(matches)[i] == matches[i]@,
{
}

/// The view of what queries match holds the matches of each query, and none for a
/// query that is not there.
pub proof fn law_view_of_a_set_holds_its_matches(set: MatchSet)
    ensures
        match set.functions {
            Some(m) => set@.functions == Some(match_views(m@)),
            None => set@.functions is None,
        },
        match set.classes {
            Some(m) => set@.classes == Some(match_views(m@)),
            None => set@.classes is None,
        },
        match set.imports {
            Some(m) => set@.imports == Some(match_views(m@)),
            None => set@.imports is None,
        },
        match set.calls {
            Some(m) => set@.calls == Some(match_views(m@)),
            None => set@.calls is None,
        },
{
}

} // verus!
