use vstd::prelude::*;

use crate::ast::{derefs, lemma_same_shape_symmetric, same_shape, AstNode};
use crate::class_mapping::{ClassMapping, ClassMappingView};
use crate::merged_tree::{all_consistent, class_node, consistent, exact_node, find_node, iso_nodes, leader_node, lemma_all_consistent, MergedTree, RevisionTrees};
use crate::text::{trim, trimmed};
use crate::lang_profile::LangProfile;
use crate::text::{push_char, push_str, str_eq};

verus! {

/// A step in an [`AstPath`], consisting in walking either
/// into a particular field by its name, or selecting all
/// children of a given type.
#[derive(Debug, Clone, Copy, PartialEq, Eq)]
pub enum PathStep {
    /// Fetch all children in the field
    Field(&'static str),
    /// Fetch all children of a given grammar type
    ChildKind(&'static str),
}

/// Describes how to go from a node to a set of descendants, by following
/// a path specified by a list of field names.
#[derive(Debug, Clone)]
pub struct AstPath {
    /// The list of nodes types to follow
    pub steps: Vec<PathStep>,
}

/// Defines how to compute the signature for a particular type of nodes.
#[derive(Debug, Clone)]
pub struct SignatureDefinition {
    /// the type of the node from which this signature can be extracted
    pub node_type: &'static str,
    /// The list of paths to take into account when extracting the signature
    pub paths: Vec<AstPath>,
}

/// The steps of the paths of a signature definition
pub open spec fn paths_steps(paths: Seq<AstPath>) -> Seq<Seq<PathStep>> {
    paths.map_values(|p: AstPath| p.steps@)
}

/// A signature definition as plain values: the kind of nodes and the steps of each path
pub open spec fn definition_view(d: SignatureDefinition) -> (&'static str, Seq<Seq<PathStep>>) {
    (d.node_type, paths_steps(d.paths@))
}

/// Helper to ease declaring signatures in the language profiles
pub fn signature(node_type: &'static str, paths: Vec<Vec<PathStep>>) -> (res: SignatureDefinition)
    ensures
        res.node_type == node_type,
        paths_steps(res.paths@) == paths@.map_values(|v: Vec<PathStep>| v@),
{
    let mut res_paths: Vec<AstPath> = Vec::new();
    let mut i: usize = 0;
    while i < paths.len()
        invariant
            0 <= i <= paths@.len(),
            paths_steps(res_paths@) == paths@.take(i as int).map_values(|v: Vec<PathStep>| v@),
        decreases paths@.len() - i,
    {
        let steps = copy_steps(&paths[i]);
        let ghost before = res_paths@;
        res_paths.push(AstPath { steps });
        assert(res_paths@ == before.push(AstPath { steps }));
        assert(paths_steps(res_paths@) =~= paths_steps(before).push(paths@[i as int]@));
        assert(paths@.take(i + 1).map_values(|v: Vec<PathStep>| v@) =~= paths@.take(i as int).map_values(|v: Vec<PathStep>| v@).push(paths@[i as int]@));
        i = i + 1;
    }
    assert(paths@.take(i as int) =~= paths@);
    SignatureDefinition { node_type, paths: res_paths }
}

/// A copy of a list of steps
fn copy_steps(steps: &Vec<PathStep>) -> (res: Vec<PathStep>)
    ensures
        res@ == steps@,
{
    let mut res: Vec<PathStep> = Vec::new();
    let mut i: usize = 0;
    while i < steps.len()
        invariant
            0 <= i <= steps@.len(),
            res@ == steps@.take(i as int),
        decreases steps@.len() - i,
    {
        res.push(steps[i]);
        assert(res@ =~= steps@.take(i + 1));
        i = i + 1;
    }
    assert(steps@.take(i as int) =~= steps@);
    res
}

/// Is a step of a path valid, according to the validity checks for node kinds and field names?
pub open spec fn step_is_valid<F: Fn(&'static str) -> bool, G: Fn(&'static str) -> bool>(
    step: PathStep,
    name_is_valid: F,
    field_is_valid: G,
) -> bool {
    match step {
        PathStep::Field(f) => field_is_valid.ensures((f,), true),
        PathStep::ChildKind(k) => name_is_valid.ensures((k,), true),
    }
}

/// Is a step of a path found invalid by the validity checks?
pub open spec fn step_is_invalid<F: Fn(&'static str) -> bool, G: Fn(&'static str) -> bool>(
    step: PathStep,
    name_is_valid: F,
    field_is_valid: G,
) -> bool {
    match step {
        PathStep::Field(f) => field_is_valid.ensures((f,), false),
        PathStep::ChildKind(k) => name_is_valid.ensures((k,), false),
    }
}

impl SignatureDefinition {
    pub fn new(node_type: &'static str, paths: Vec<Vec<PathStep>>) -> (res: Self)
        ensures
            res.node_type == node_type,
            paths_steps(res.paths@) == paths@.map_values(|v: Vec<PathStep>| v@),
    {
        signature(node_type, paths)
    }

    /// Are the node type and all the node kinds and field names of the paths valid?
    pub open spec fn kinds_valid<F: Fn(&'static str) -> bool, G: Fn(&'static str) -> bool>(
        self,
        name_is_valid: F,
        field_is_valid: G,
    ) -> bool {
        &&& name_is_valid.ensures((self.node_type,), true)
        &&& forall|p: int, k: int| 0 <= p < self.paths@.len() && 0 <= k < self.paths@[p].steps@.len()
            ==> step_is_valid(#[trigger] self.paths@[p].steps@[k], name_is_valid, field_is_valid)
    }

    /// Is the node type or one of the node kinds or field names of the paths found invalid?
    pub open spec fn check_kinds_fails<F: Fn(&'static str) -> bool, G: Fn(&'static str) -> bool>(
        self,
        name_is_valid: F,
        field_is_valid: G,
    ) -> bool {
        ||| name_is_valid.ensures((self.node_type,), false)
        ||| exists|p: int, k: int| 0 <= p < self.paths@.len() && 0 <= k < self.paths@[p].steps@.len()
            && step_is_invalid(#[trigger] self.paths@[p].steps@[k], name_is_valid, field_is_valid)
    }

    /// Check that the node type and all the node kinds and field names of the paths
    /// exist in the language.
    pub fn check_kinds<F: Fn(&'static str) -> bool, G: Fn(&'static str) -> bool>(
        &self,
        name_is_valid: &F,
        field_is_valid: &G,
    ) -> (res: Result<(), String>)
        requires
            forall|s: &'static str| name_is_valid.requires((s,)),
            forall|s: &'static str| field_is_valid.requires((s,)),
        ensures
            res is Ok ==> self.kinds_valid(*name_is_valid, *field_is_valid),
            res is Err ==> self.check_kinds_fails(*name_is_valid, *field_is_valid),
    {
        if !name_is_valid(self.node_type) {
            return Err(message_with_quoted("invalid node type for signature: ", self.node_type));
        }
        let mut p: usize = 0;
        while p < self.paths.len()
            invariant
                0 <= p <= self.paths@.len(),
                forall|s: &'static str| name_is_valid.requires((s,)),
                forall|s: &'static str| field_is_valid.requires((s,)),
                name_is_valid.ensures((self.node_type,), true),
                forall|pp: int, k: int| 0 <= pp < p && 0 <= k < self.paths@[pp].steps@.len()
                    ==> step_is_valid(#[trigger] self.paths@[pp].steps@[k], *name_is_valid, *field_is_valid),
            decreases self.paths@.len() - p,
        {
            let steps = &self.paths[p].steps;
            let mut k: usize = 0;
            while k < steps.len()
                invariant
                    0 <= p < self.paths@.len(),
                    *steps == self.paths@[p as int].steps,
                    0 <= k <= steps@.len(),
                    forall|s: &'static str| name_is_valid.requires((s,)),
                    forall|s: &'static str| field_is_valid.requires((s,)),
                    forall|kk: int| 0 <= kk < k ==> step_is_valid(#[trigger] steps@[kk], *name_is_valid, *field_is_valid),
                decreases steps@.len() - k,
            {
                match steps[k] {
                    PathStep::Field(f) => {
                        if !field_is_valid(f) {
                            assert(step_is_invalid(self.paths@[p as int].steps@[k as int], *name_is_valid, *field_is_valid));
                            return Err(message_with_quoted("invalid field name: ", f));
                        }
                    },
                    PathStep::ChildKind(kind) => {
                        if !name_is_valid(kind) {
                            assert(step_is_invalid(self.paths@[p as int].steps@[k as int], *name_is_valid, *field_is_valid));
                            return Err(message_with_quoted("invalid child type: ", kind));
                        }
                    },
                }
                k = k + 1;
            }
            p = p + 1;
        }
        Ok(())
    }
}

impl AstPath {
    /// A path following the given fields
    pub fn new(steps: Vec<&'static str>) -> (res: Self)
        ensures
            res.steps@ == steps@.map_values(|s: &'static str| PathStep::Field(s)),
    {
        let mut res: Vec<PathStep> = Vec::new();
        let mut i: usize = 0;
        while i < steps.len()
            invariant
                0 <= i <= steps@.len(),
                res@ == steps@.take(i as int).map_values(|s: &'static str| PathStep::Field(s)),
            decreases steps@.len() - i,
        {
            res.push(PathStep::Field(steps[i]));
            assert(res@ =~= steps@.take(i + 1).map_values(|s: &'static str| PathStep::Field(s)));
            i = i + 1;
        }
        assert(steps@.take(i as int) =~= steps@);
        AstPath { steps: res }
    }
}

/// The rendering of a name as a quoted string, as Rust's `Debug` formatting prints it,
/// escaping quotes, backslashes and control characters that commonly occur
pub open spec fn quoted(s: Seq<char>) -> Seq<char> {
    seq!['"'] + escaped(s) + seq!['"']
}

/// The characters of a name with escapes for quotes, backslashes and whitespace controls
pub open spec fn escaped(s: Seq<char>) -> Seq<char>
    decreases s.len(),
{
    if s.len() == 0 {
        Seq::empty()
    } else {
        escape_char(s[0]) + escaped(s.skip(1))
    }
}

/// The escape sequence of one character
pub open spec fn escape_char(c: char) -> Seq<char> {
    if c == '"' {
        seq!['\\', '"']
    } else if c == '\\' {
        seq!['\\', '\\']
    } else if c == '\n' {
        seq!['\\', 'n']
    } else if c == '\r' {
        seq!['\\', 'r']
    } else if c == '\t' {
        seq!['\\', 't']
    } else if c == '\0' {
        seq!['\\', '0']
    } else {
        seq![c]
    }
}

/// A message made of a prefix followed by a quoted name
pub fn message_with_quoted(prefix: &str, name: &str) -> (res: String)
    ensures
        res@ == prefix@ + quoted(name@),
{
    let mut res = String::new();
    push_str(&mut res, prefix);
    push_char(&mut res, '"');
    let chars = crate::text::to_chars(name);
    let mut i: usize = 0;
    let ghost start = res@;
    assert(chars@.take(0) =~= Seq::<char>::empty());
    assert(escaped(Seq::<char>::empty()) =~= Seq::<char>::empty());
    while i < chars.len()
        invariant
            0 <= i <= chars@.len(),
            chars@ == name@,
            res@ == start + escaped(chars@.take(i as int)),
        decreases chars@.len() - i,
    {
        let c = chars[i];
        if c == '"' {
            push_char(&mut res, '\\');
            push_char(&mut res, '"');
        } else if c == '\\' {
            push_char(&mut res, '\\');
            push_char(&mut res, '\\');
        } else if c == '\n' {
            push_char(&mut res, '\\');
            push_char(&mut res, 'n');
        } else if c == '\r' {
            push_char(&mut res, '\\');
            push_char(&mut res, 'r');
        } else if c == '\t' {
            push_char(&mut res, '\\');
            push_char(&mut res, 't');
        } else if c == '\0' {
            push_char(&mut res, '\\');
            push_char(&mut res, '0');
        } else {
            push_char(&mut res, c);
        }
        proof {
            lemma_escaped_push(chars@.take(i as int), c);
            assert(chars@.take(i + 1) =~= chars@.take(i as int).push(c));
        }
        i = i + 1;
    }
    push_char(&mut res, '"');
    assert(chars@.take(i as int) =~= chars@);
    assert(res@ =~= prefix@ + quoted(name@));
    res
}

proof fn lemma_escaped_push(s: Seq<char>, c: char)
    ensures
        escaped(s.push(c)) == escaped(s) + escape_char(c),
    decreases s.len(),
{
    reveal_with_fuel(escaped, 2);
    if s.len() == 0 {
        assert(s.push(c)[0] == c);
        assert(s.push(c).skip(1) =~= Seq::<char>::empty());
        assert(escaped(s.push(c)) =~= escape_char(c) + Seq::<char>::empty());
        assert(escaped(s) + escape_char(c) =~= escape_char(c));
    } else {
        lemma_escaped_push(s.skip(1), c);
        assert(s.push(c).skip(1) =~= s.skip(1).push(c));
        assert(escaped(s.push(c)) =~= escaped(s) + escape_char(c));
    }
}

/// Does a child match a step of a path: it is in the field, or of the kind, that the step names?
pub open spec fn step_matches<'a>(step: PathStep, c: AstNode<'a>) -> bool {
    match step {
        PathStep::Field(f) => c.field_name matches Some(n) && n@ == f@,
        PathStep::ChildKind(k) => c.grammar_name@ == k@,
    }
}

/// The descendants of `n` reached by following the steps of a path
pub open spec fn extracted<'a>(steps: Seq<PathStep>, n: AstNode<'a>) -> Seq<AstNode<'a>>
    decreases steps.len(), 1nat, 0nat,
{
    if steps.len() == 0 {
        seq![n]
    } else {
        extracted_all(steps, n.children@, n.children@.len() as int)
    }
}

/// The descendants reached from those of the first `k` children that match the first step,
/// by following the remaining steps
pub open spec fn extracted_all<'a>(steps: Seq<PathStep>, cs: Seq<AstNode<'a>>, k: int) -> Seq<AstNode<'a>>
    decreases steps.len(), 0nat, k,
{
    if steps.len() == 0 || k <= 0 || k > cs.len() {
        Seq::empty()
    } else if step_matches(steps[0], cs[k - 1]) {
        extracted_all(steps, cs, k - 1) + extracted(steps.skip(1), cs[k - 1])
    } else {
        extracted_all(steps, cs, k - 1)
    }
}

/// The signature of a node, for a definition: the descendants reached by each path
pub struct Signature<'b, 'a>(pub Vec<Vec<&'b AstNode<'a>>>);

/// The nodes a list of references points to
pub open spec fn nodes_of<'b, 'a>(v: Seq<&'b AstNode<'a>>) -> Seq<AstNode<'a>> {
    v.map_values(|r: &'b AstNode<'a>| *r)
}

/// Are two lists of nodes pairwise isomorphic?
pub open spec fn lists_isomorphic<'a>(a: Seq<AstNode<'a>>, b: Seq<AstNode<'a>>) -> bool {
    a.len() == b.len() && forall|i: int| 0 <= i < a.len() ==> (#[trigger] a[i]).hash == b[i].hash && same_shape(a[i], b[i])
}

/// Are two signatures, given by their lists of nodes, equal: the same number of lists,
/// pairwise isomorphic?
pub open spec fn lists_equal<'a>(a: Seq<Seq<AstNode<'a>>>, b: Seq<Seq<AstNode<'a>>>) -> bool {
    a.len() == b.len() && forall|i: int| 0 <= i < a.len() ==> lists_isomorphic(#[trigger] a[i], b[i])
}

impl<'b, 'a> Signature<'b, 'a> {
    /// The lists of nodes of the signature
    pub open spec fn lists(self) -> Seq<Seq<AstNode<'a>>> {
        self.0@.map_values(|v: Vec<&'b AstNode<'a>>| nodes_of(v@))
    }

    /// Are two signatures equal: the same number of lists, pairwise isomorphic?
    pub open spec fn equals(self, other: Self) -> bool {
        lists_equal(self.lists(), other.lists())
    }

    /// Is this signature equal to the other one (each list pairwise isomorphic)?
    pub fn same_as(&self, other: &Signature<'b, 'a>) -> (res: bool)
        ensures
            res == self.equals(*other),
    {
        if self.0.len() != other.0.len() {
            return false;
        }
        let mut i: usize = 0;
        while i < self.0.len()
            invariant
                0 <= i <= self.0@.len(),
                self.0@.len() == other.0@.len(),
                forall|j: int| 0 <= j < i ==> lists_isomorphic(#[trigger] self.lists()[j], other.lists()[j]),
            decreases self.0@.len() - i,
        {
            let a = &self.0[i];
            let b = &other.0[i];
            assert(self.lists()[i as int] == nodes_of(a@));
            assert(other.lists()[i as int] == nodes_of(b@));
            if a.len() != b.len() {
                proof {
                    assert(nodes_of(a@).len() == a@.len());
                    assert(nodes_of(b@).len() == b@.len());
                    assert(!lists_isomorphic(self.lists()[i as int], other.lists()[i as int]));
                }
                return false;
            }
            let mut k: usize = 0;
            while k < a.len()
                invariant
                    0 <= k <= a@.len(),
                    a@.len() == b@.len(),
                    0 <= i < self.0@.len(),
                    self.0@.len() == other.0@.len(),
                    *a == self.0@[i as int],
                    *b == other.0@[i as int],
                    self.lists()[i as int] == nodes_of(a@),
                    other.lists()[i as int] == nodes_of(b@),
                    forall|j: int| 0 <= j < i ==> lists_isomorphic(#[trigger] self.lists()[j], other.lists()[j]),
                    forall|j: int| 0 <= j < k ==> (#[trigger] nodes_of(a@)[j]).hash == nodes_of(b@)[j].hash
                        && same_shape(nodes_of(a@)[j], nodes_of(b@)[j]),
                decreases a@.len() - k,
            {
                if !a[k].isomorphic_to(b[k]) {
                    proof {
                        assert(nodes_of(a@)[k as int] == *a@[k as int]);
                        assert(nodes_of(b@)[k as int] == *b@[k as int]);
                        assert(!lists_isomorphic(self.lists()[i as int], other.lists()[i as int]));
                    }
                    return false;
                }
                k = k + 1;
            }
            assert(lists_isomorphic(self.lists()[i as int], other.lists()[i as int]));
            i = i + 1;
        }
        true
    }
}

impl AstPath {
    /// Extracts a list of descendants which can be reached from the node
    /// by following the path.
    pub fn extract<'b, 'a>(&self, node: &'b AstNode<'a>) -> (res: Vec<&'b AstNode<'a>>)
        ensures
            nodes_of(res@) == extracted(self.steps@, *node),
    {
        let steps = self.steps.as_slice();
        assert(steps@.skip(0) =~= self.steps@);
        extract_from(steps, 0, node)
    }
}

/// The descendants reached from `node` by following the steps from position `from`
fn extract_from<'b, 'a>(steps: &[PathStep], from: usize, node: &'b AstNode<'a>) -> (res: Vec<&'b AstNode<'a>>)
    requires
        from <= steps@.len(),
    ensures
        nodes_of(res@) == extracted(steps@.skip(from as int), *node),
    decreases steps@.len() - from, 1nat,
{
    if from == steps.len() {
        let mut res: Vec<&'b AstNode<'a>> = Vec::new();
        res.push(node);
        assert(steps@.skip(from as int) =~= Seq::<PathStep>::empty());
        assert(nodes_of(res@) =~= seq![*node]);
        return res;
    }
    let step = steps[from];
    let next = from + 1;
    let mut res: Vec<&'b AstNode<'a>> = Vec::new();
    let ghost rest = steps@.skip(from as int);
    let mut i: usize = 0;
    while i < node.children.len()
        invariant
            0 <= i <= node.children@.len(),
            from < steps@.len(),
            next == from + 1,
            rest == steps@.skip(from as int),
            step == rest[0],
            nodes_of(res@) == extracted_all(rest, node.children@, i as int),
        decreases node.children@.len() - i,
    {
        let c = &node.children[i];
        let matches = match step {
            PathStep::Field(f) => match &c.field_name {
                Some(n) => str_eq(n.as_str(), f),
                None => false,
            },
            PathStep::ChildKind(k) => str_eq(c.grammar_name.as_str(), k),
        };
        if matches {
            proof {
                assert(rest.skip(1) =~= steps@.skip(from + 1));
            }
            let mut sub = extract_from(steps, next, c);
            let ghost before = res@;
            let ghost added = sub@;
            res.append(&mut sub);
            assert(nodes_of(res@) =~= nodes_of(before) + nodes_of(added));
        }
        i = i + 1;
    }
    res
}

impl SignatureDefinition {
    /// Extracts a signature for the supplied original node
    pub fn extract_signature_from_original_node<'b, 'a>(&self, node: &'b AstNode<'a>) -> (res: Signature<'b, 'a>)
        ensures
            res.lists() == self.paths@.map_values(|p: AstPath| extracted(p.steps@, *node)),
    {
        let mut lists: Vec<Vec<&'b AstNode<'a>>> = Vec::new();
        let mut i: usize = 0;
        while i < self.paths.len()
            invariant
                0 <= i <= self.paths@.len(),
                lists@.map_values(|v: Vec<&'b AstNode<'a>>| nodes_of(v@)) == self.paths@.take(i as int).map_values(|p: AstPath| extracted(p.steps@, *node)),
            decreases self.paths@.len() - i,
        {
            let extracted_nodes = self.paths[i].extract(node);
            let ghost before = lists@;
            lists.push(extracted_nodes);
            proof {
                assert(lists@.map_values(|v: Vec<&'b AstNode<'a>>| nodes_of(v@)) =~= before.map_values(|v: Vec<&'b AstNode<'a>>| nodes_of(v@)).push(nodes_of(extracted_nodes@)));
                assert(self.paths@.take(i + 1).map_values(|p: AstPath| extracted(p.steps@, *node))
                    =~= self.paths@.take(i as int).map_values(|p: AstPath| extracted(p.steps@, *node)).push(extracted(self.paths@[i as int].steps@, *node)));
            }
            i = i + 1;
        }
        assert(self.paths@.take(self.paths@.len() as int) =~= self.paths@);
        Signature(lists)
    }
}

/// The signature definition that applies to nodes of a kind: the first one for that kind
pub open spec fn first_definition(defs: Seq<SignatureDefinition>, kind: Seq<char>) -> Option<SignatureDefinition>
    decreases defs.len(),
{
    if defs.len() == 0 {
        None
    } else if defs[0].node_type@ == kind {
        Some(defs[0])
    } else {
        first_definition(defs.skip(1), kind)
    }
}

/// The lists of nodes of the signature of a node, if its language defines one for its kind
pub open spec fn signature_of<'a>(n: AstNode<'a>) -> Option<Seq<Seq<AstNode<'a>>>> {
    match first_definition(n.lang_profile.signatures@, n.grammar_name@) {
        Some(d) => Some(d.paths@.map_values(|p: AstPath| extracted(p.steps@, n))),
        None => None,
    }
}

/// Do two of the nodes both have signatures, and equal ones?
pub open spec fn same_signatures<'a>(a: AstNode<'a>, b: AstNode<'a>) -> bool {
    match (signature_of(a), signature_of(b)) {
        (Some(x), Some(y)) => lists_equal(x, y),
        _ => false,
    }
}

/// Does a node hold, as a commutative parent of at least two children, two children with
/// the same signature?
pub open spec fn conflict_in_self<'a>(n: AstNode<'a>) -> bool {
    &&& n.children@.len() >= 2
    &&& n.commutative_parent is Some
    &&& exists|i: int, j: int|
        0 <= i < j < n.children@.len() && #[trigger] same_signatures(n.children@[i], n.children@[j])
}

/// Is there a signature conflict anywhere in the tree?
pub open spec fn has_conflicts<'a>(n: AstNode<'a>) -> bool
    decreases n, 1nat,
{
    conflict_in_self(n) || any_conflicts(n.children@, n.children@.len() as int)
}

/// Is there a signature conflict in one of the first `k` trees?
pub open spec fn any_conflicts<'a>(s: Seq<AstNode<'a>>, k: int) -> bool
    decreases s, k,
{
    if k <= 0 || k > s.len() {
        false
    } else {
        has_conflicts(s[k - 1]) || any_conflicts(s, k - 1)
    }
}

proof fn lemma_first_definition(defs: Seq<SignatureDefinition>, kind: Seq<char>, i: int)
    requires
        0 <= i < defs.len(),
        defs[i].node_type@ == kind,
        forall|j: int| 0 <= j < i ==> (#[trigger] defs[j]).node_type@ != kind,
    ensures
        first_definition(defs, kind) == Some(defs[i]),
    decreases i,
{
    if i > 0 {
        assert(defs[0].node_type@ != kind);
        assert forall|j: int| 0 <= j < i - 1 implies (#[trigger] defs.skip(1)[j]).node_type@ != kind by {
            assert(defs.skip(1)[j] == defs[j + 1]);
        }
        lemma_first_definition(defs.skip(1), kind, i - 1);
    }
}

proof fn lemma_no_definition(defs: Seq<SignatureDefinition>, kind: Seq<char>)
    requires
        forall|j: int| 0 <= j < defs.len() ==> (#[trigger] defs[j]).node_type@ != kind,
    ensures
        first_definition(defs, kind) is None,
    decreases defs.len(),
{
    if defs.len() > 0 {
        assert(defs[0].node_type@ != kind);
        assert forall|j: int| 0 <= j < defs.len() - 1 implies (#[trigger] defs.skip(1)[j]).node_type@ != kind by {
            assert(defs.skip(1)[j] == defs[j + 1]);
        }
        lemma_no_definition(defs.skip(1), kind);
    }
}

/// The lists of nodes of a signature that may be missing
pub open spec fn lists_of<'b, 'a>(s: Option<Signature<'b, 'a>>) -> Option<Seq<Seq<AstNode<'a>>>> {
    match s {
        Some(sig) => Some(sig.lists()),
        None => None,
    }
}

impl<'a> AstNode<'a> {
    /// The signature definition associated with this node.
    pub fn signature_definition(&self) -> (res: Option<&'a SignatureDefinition>)
        ensures
            match res {
                Some(d) => first_definition(self.lang_profile.signatures@, self.grammar_name@) == Some(*d),
                None => first_definition(self.lang_profile.signatures@, self.grammar_name@) is None,
            },
    {
        let lang: &'a LangProfile = self.lang_profile;
        let res = lang.find_signature_definition_by_kind(self.grammar_name.as_str());
        proof {
            match res {
                Some(d) => {
                    let i = choose|i: int| 0 <= i < lang.signatures@.len() && *d == lang.signatures@[i]
                        && lang.signatures@[i].node_type@ == self.grammar_name@
                        && forall|j: int| 0 <= j < i ==> (#[trigger] lang.signatures@[j]).node_type@ != self.grammar_name@;
                    lemma_first_definition(lang.signatures@, self.grammar_name@, i);
                },
                None => {
                    lemma_no_definition(lang.signatures@, self.grammar_name@);
                },
            }
        }
        res
    }

    /// Extracts a signature for this node if we have a signature definition
    /// for this type of nodes in the language profile.
    pub fn signature<'b>(&'b self) -> (res: Option<Signature<'b, 'a>>)
        ensures
            lists_of(res) == signature_of(*self),
    {
        match self.signature_definition() {
            Some(definition) => Some(definition.extract_signature_from_original_node(self)),
            None => None,
        }
    }

    /// Checks if a tree has any signature conflicts in it: a commutative parent with
    /// two children that have the same signature
    pub fn has_signature_conflicts(&self) -> (res: bool)
        ensures
            res == has_conflicts(*self),
        decreases self,
    {
        let n = self.children.len();
        if n >= 2 && self.commutative_parent.is_some() {
            let mut sigs: Vec<Option<Signature<'_, 'a>>> = Vec::new();
            let mut i: usize = 0;
            while i < n
                invariant
                    n == self.children@.len(),
                    0 <= i <= n,
                    sigs@.len() == i,
                    forall|k: int| 0 <= k < i ==> lists_of(#[trigger] sigs@[k]) == signature_of(self.children@[k]),
                decreases n - i,
            {
                let sig = self.children[i].signature();
                sigs.push(sig);
                i = i + 1;
            }
            let mut i: usize = 0;
            while i < n
                invariant
                    n == self.children@.len(),
                    n >= 2,
                    self.commutative_parent is Some,
                    sigs@.len() == n,
                    0 <= i <= n,
                    forall|k: int| 0 <= k < n ==> lists_of(#[trigger] sigs@[k]) == signature_of(self.children@[k]),
                    forall|a: int, b: int| 0 <= a < i && a < b < n ==> !#[trigger] same_signatures(self.children@[a], self.children@[b]),
                decreases n - i,
            {
                let mut j: usize = i + 1;
                while j < n
                    invariant
                        n == self.children@.len(),
                        n >= 2,
                        self.commutative_parent is Some,
                        sigs@.len() == n,
                        0 <= i < n,
                        i < j <= n,
                        forall|k: int| 0 <= k < n ==> lists_of(#[trigger] sigs@[k]) == signature_of(self.children@[k]),
                        forall|a: int, b: int| 0 <= a < i && a < b < n ==> !#[trigger] same_signatures(self.children@[a], self.children@[b]),
                        forall|b: int| i < b < j ==> !#[trigger] same_signatures(self.children@[i as int], self.children@[b]),
                    decreases n - j,
                {
                    let equal = match (&sigs[i], &sigs[j]) {
                        (Some(x), Some(y)) => x.same_as(y),
                        _ => false,
                    };
                    proof {
                        assert(lists_of(sigs@[i as int]) == signature_of(self.children@[i as int]));
                        assert(lists_of(sigs@[j as int]) == signature_of(self.children@[j as int]));
                    }
                    if equal {
                        assert(same_signatures(self.children@[i as int], self.children@[j as int]));
                        assert(conflict_in_self(*self));
                        return true;
                    }
                    j = j + 1;
                }
                i = i + 1;
            }
        }
        assert(!conflict_in_self(*self));
        let mut k: usize = n;
        while k > 0
            invariant
                n == self.children@.len(),
                0 <= k <= n,
                !conflict_in_self(*self),
                any_conflicts(self.children@, n as int) == any_conflicts(self.children@, k as int),
            decreases k,
        {
            if self.children[k - 1].has_signature_conflicts() {
                return true;
            }
            k = k - 1;
        }
        false
    }
}

/// A part of a tree, either an original one or a merged one,
/// with equality being defined as "quasi" isomorphism between them.
pub enum AstNodeEquiv<'b, 'a> {
    Original(&'b AstNode<'a>),
    Merged(&'b MergedTree<'b, 'a>),
}

/// Are two original nodes equal as the syntax tree compares them: the same hash, identifier,
/// kind, language and range?
pub open spec fn node_eq<'a>(p: AstNode<'a>, q: AstNode<'a>) -> bool {
    &&& p.hash == q.hash
    &&& p.id == q.id
    &&& p.grammar_name@ == q.grammar_name@
    &&& p.lang_profile.name@ == q.lang_profile.name@
    &&& p.byte_range == q.byte_range
}

/// Are two lists of original nodes equal, node by node?
pub open spec fn nodes_eq<'a>(x: Seq<AstNode<'a>>, y: Seq<AstNode<'a>>) -> bool {
    &&& x.len() == y.len()
    &&& forall|i: int| 0 <= i < x.len() ==> node_eq(#[trigger] x[i], y[i])
}

/// Are two merged trees that are neither exact nor mixed equal: the same conflict, the same
/// line-based merge or the same separator?
pub open spec fn plain_eq<'b, 'a>(a: MergedTree<'b, 'a>, b: MergedTree<'b, 'a>) -> bool {
    match (a, b) {
        (MergedTree::Conflict(x), MergedTree::Conflict(y)) => {
            &&& nodes_eq(derefs(x.base@), derefs(y.base@))
            &&& nodes_eq(derefs(x.left@), derefs(y.left@))
            &&& nodes_eq(derefs(x.right@), derefs(y.right@))
        },
        (
            MergedTree::LineBasedMerge { node: n1, contents: c1, conflict_mass: m1 },
            MergedTree::LineBasedMerge { node: n2, contents: c2, conflict_mass: m2 },
        ) => n1 == n2 && c1@ == c2@ && m1 == m2,
        (MergedTree::CommutativeChildSeparator { separator: s1 }, MergedTree::CommutativeChildSeparator { separator: s2 }) => s1@ == s2@,
        _ => false,
    }
}

/// Is a merged tree isomorphic to an original node?
pub open spec fn merged_orig_iso<'b, 'a>(b: MergedTree<'b, 'a>, a: AstNode<'a>, v: ClassMappingView, trees: RevisionTrees<'b, 'a>) -> bool
    decreases b, 1nat,
{
    match b {
        MergedTree::ExactTree { node, revisions, .. } => match exact_node(v, trees, node, revisions) {
            Some(r) => iso_nodes(r, a),
            None => false,
        },
        MergedTree::MixedTree { node, children, .. } => match leader_node(trees, node) {
            Some(n) => {
                &&& n.grammar_name@ == a.grammar_name@
                &&& children@.len() == a.children@.len()
                &&& children_orig_iso(children@, a.children@, 0, v, trees)
            },
            None => false,
        },
        MergedTree::Conflict(_) => false,
        MergedTree::LineBasedMerge { node, contents, .. } => match leader_node(trees, node) {
            Some(n) => n.grammar_name@ == a.grammar_name@ && contents@ == a.source@,
            None => false,
        },
        MergedTree::CommutativeChildSeparator { separator } => trimmed(separator@) == a.source@,
    }
}

/// Are the merged trees of `s`, from index `k` on, isomorphic to the nodes of `o` at the same places?
pub open spec fn children_orig_iso<'b, 'a>(s: Seq<MergedTree<'b, 'a>>, o: Seq<AstNode<'a>>, k: int, v: ClassMappingView, trees: RevisionTrees<'b, 'a>) -> bool
    decreases s, s.len() - k,
{
    if k < 0 || k >= s.len() {
        true
    } else {
        merged_orig_iso(s[k], o[k], v, trees) && children_orig_iso(s, o, k + 1, v, trees)
    }
}

/// Are two merged trees isomorphic?
pub open spec fn merged_iso<'b, 'a>(a: MergedTree<'b, 'a>, b: MergedTree<'b, 'a>, v: ClassMappingView, trees: RevisionTrees<'b, 'a>) -> bool
    decreases a, 1nat,
{
    if let MergedTree::ExactTree { node, revisions, .. } = a {
        match exact_node(v, trees, node, revisions) {
            Some(r) => merged_orig_iso(b, r, v, trees),
            None => false,
        }
    } else if let MergedTree::ExactTree { node, revisions, .. } = b {
        match exact_node(v, trees, node, revisions) {
            Some(r) => merged_orig_iso(a, r, v, trees),
            None => false,
        }
    } else {
        match (a, b) {
            (MergedTree::MixedTree { node: na, children: ca, .. }, MergedTree::MixedTree { node: nb, children: cb, .. }) => {
                match (leader_node(trees, na), leader_node(trees, nb)) {
                    (Some(x), Some(y)) => {
                        &&& x.grammar_name@ == y.grammar_name@
                        &&& ca@.len() == cb@.len()
                        &&& children_merged_iso(ca@, cb@, 0, v, trees)
                    },
                    _ => false,
                }
            },
            (MergedTree::MixedTree { .. }, _) => false,
            (_, MergedTree::MixedTree { .. }) => false,
            _ => plain_eq(a, b),
        }
    }
}

/// Are the merged trees of `s` and `t`, from index `k` on, isomorphic at the same places?
pub open spec fn children_merged_iso<'b, 'a>(s: Seq<MergedTree<'b, 'a>>, t: Seq<MergedTree<'b, 'a>>, k: int, v: ClassMappingView, trees: RevisionTrees<'b, 'a>) -> bool
    decreases s, s.len() - k,
{
    if k < 0 || k >= s.len() {
        true
    } else {
        merged_iso(s[k], t[k], v, trees) && children_merged_iso(s, t, k + 1, v, trees)
    }
}

/// Are two parts of trees isomorphic?
pub open spec fn equiv_iso<'b, 'a>(x: AstNodeEquiv<'b, 'a>, y: AstNodeEquiv<'b, 'a>, v: ClassMappingView, trees: RevisionTrees<'b, 'a>) -> bool {
    match (x, y) {
        (AstNodeEquiv::Original(a), AstNodeEquiv::Original(b)) => iso_nodes(*a, *b),
        (AstNodeEquiv::Original(a), AstNodeEquiv::Merged(b)) => merged_orig_iso(*b, *a, v, trees),
        (AstNodeEquiv::Merged(b), AstNodeEquiv::Original(a)) => merged_orig_iso(*b, *a, v, trees),
        (AstNodeEquiv::Merged(a), AstNodeEquiv::Merged(b)) => merged_iso(*a, *b, v, trees),
    }
}

/// Is the merged part of a tree, if any, consistent with the class mapping?
pub open spec fn equiv_consistent<'b, 'a>(x: AstNodeEquiv<'b, 'a>, v: ClassMappingView, trees: RevisionTrees<'b, 'a>) -> bool {
    match x {
        AstNodeEquiv::Original(_) => true,
        AstNodeEquiv::Merged(t) => consistent(*t, v, trees),
    }
}


/// Are two original nodes equal as the syntax tree compares them?
fn same_node(p: &AstNode, q: &AstNode) -> (res: bool)
    ensures
        res == node_eq(*p, *q),
{
    p.hash == q.hash && p.id == q.id && str_eq(p.grammar_name.as_str(), q.grammar_name.as_str())
        && str_eq(p.lang_profile.name, q.lang_profile.name) && p.byte_range.start == q.byte_range.start
        && p.byte_range.end == q.byte_range.end
}

/// Are two lists of original nodes equal, node by node?
fn same_nodes<'b, 'a>(x: &Vec<&'b AstNode<'a>>, y: &Vec<&'b AstNode<'a>>) -> (res: bool)
    ensures
        res == nodes_eq(derefs(x@), derefs(y@)),
{
    if x.len() != y.len() {
        return false;
    }
    let mut i: usize = 0;
    while i < x.len()
        invariant
            0 <= i <= x@.len(),
            x@.len() == y@.len(),
            forall|j: int| 0 <= j < i ==> node_eq(#[trigger] derefs(x@)[j], derefs(y@)[j]),
        decreases x@.len() - i,
    {
        if !same_node(x[i], y[i]) {
            proof {
                assert(!node_eq(derefs(x@)[i as int], derefs(y@)[i as int]));
            }
            return false;
        }
        i = i + 1;
    }
    true
}

/// Are two merged trees that are neither exact nor mixed equal?
fn same_plain<'b, 'a>(a: &MergedTree<'b, 'a>, b: &MergedTree<'b, 'a>) -> (res: bool)
    ensures
        res == plain_eq(*a, *b),
{
    match (a, b) {
        (MergedTree::Conflict(x), MergedTree::Conflict(y)) => {
            same_nodes(&x.base, &y.base) && same_nodes(&x.left, &y.left) && same_nodes(&x.right, &y.right)
        },
        (
            MergedTree::LineBasedMerge { node: n1, contents: c1, conflict_mass: m1 },
            MergedTree::LineBasedMerge { node: n2, contents: c2, conflict_mass: m2 },
        ) => *n1 == *n2 && str_eq(c1.as_str(), c2.as_str()) && *m1 == *m2,
        (MergedTree::CommutativeChildSeparator { separator: s1 }, MergedTree::CommutativeChildSeparator { separator: s2 }) => str_eq(s1, s2),
        _ => false,
    }
}

/// Is a merged tree isomorphic to an original node?
fn merged_orig<'b, 'a>(b: &MergedTree<'b, 'a>, a: &AstNode<'a>, class_mapping: &ClassMapping, trees: &RevisionTrees<'b, 'a>) -> (res: bool)
    requires
        consistent(*b, class_mapping@, *trees),
    ensures
        res == merged_orig_iso(*b, *a, class_mapping@, *trees),
    decreases b, 1nat,
{
    match b {
        MergedTree::ExactTree { node, revisions, .. } => match class_node(class_mapping, trees, node, revisions.any()) {
            Some(r) => r.isomorphic_to(a),
            None => false,
        },
        MergedTree::MixedTree { node, children, .. } => {
            let n = match find_node(trees.tree(node.0.rev), node.0.node) {
                Some(n) => n,
                None => {
                    return false;
                },
            };
            if !str_eq(n.grammar_name.as_str(), a.grammar_name.as_str()) || children.len() != a.children.len() {
                return false;
            }
            children_orig(children, &a.children, class_mapping, trees)
        },
        MergedTree::Conflict(_) => false,
        MergedTree::LineBasedMerge { node, contents, .. } => {
            let n = match find_node(trees.tree(node.0.rev), node.0.node) {
                Some(n) => n,
                None => {
                    return false;
                },
            };
            str_eq(n.grammar_name.as_str(), a.grammar_name.as_str()) && str_eq(contents.as_str(), a.source.as_str())
        },
        MergedTree::CommutativeChildSeparator { separator } => {
            let t = trim(separator);
            str_eq(t.as_str(), a.source.as_str())
        },
    }
}

/// Are the merged trees isomorphic to the original nodes at the same places?
fn children_orig<'b, 'a>(s: &Vec<MergedTree<'b, 'a>>, o: &Vec<AstNode<'a>>, class_mapping: &ClassMapping, trees: &RevisionTrees<'b, 'a>) -> (res: bool)
    requires
        s@.len() == o@.len(),
        all_consistent(s@, 0, class_mapping@, *trees),
    ensures
        res == children_orig_iso(s@, o@, 0, class_mapping@, *trees),
    decreases s@, s@.len() + 1,
{
    let mut k: usize = 0;
    while k < s.len()
        invariant
            0 <= k <= s@.len(),
            s@.len() == o@.len(),
            all_consistent(s@, k as int, class_mapping@, *trees),
            children_orig_iso(s@, o@, 0, class_mapping@, *trees) == children_orig_iso(s@, o@, k as int, class_mapping@, *trees),
        decreases s@.len() - k,
    {
        if !merged_orig(&s[k], &o[k], class_mapping, trees) {
            return false;
        }
        k = k + 1;
    }
    true
}

/// Are two merged trees isomorphic?
fn merged_merged<'b, 'a>(a: &MergedTree<'b, 'a>, b: &MergedTree<'b, 'a>, class_mapping: &ClassMapping, trees: &RevisionTrees<'b, 'a>) -> (res: bool)
    requires
        consistent(*a, class_mapping@, *trees),
        consistent(*b, class_mapping@, *trees),
    ensures
        res == merged_iso(*a, *b, class_mapping@, *trees),
    decreases a, 1nat,
{
    if let MergedTree::ExactTree { node, revisions, .. } = a {
        match class_node(class_mapping, trees, node, revisions.any()) {
            Some(r) => merged_orig(b, r, class_mapping, trees),
            None => false,
        }
    } else if let MergedTree::ExactTree { node, revisions, .. } = b {
        match class_node(class_mapping, trees, node, revisions.any()) {
            Some(r) => merged_orig(a, r, class_mapping, trees),
            None => false,
        }
    } else {
        match (a, b) {
            (MergedTree::MixedTree { node: na, children: ca, .. }, MergedTree::MixedTree { node: nb, children: cb, .. }) => {
                let x = match find_node(trees.tree(na.0.rev), na.0.node) {
                    Some(x) => x,
                    None => {
                        return false;
                    },
                };
                let y = match find_node(trees.tree(nb.0.rev), nb.0.node) {
                    Some(y) => y,
                    None => {
                        return false;
                    },
                };
                if !str_eq(x.grammar_name.as_str(), y.grammar_name.as_str()) || ca.len() != cb.len() {
                    return false;
                }
                children_merged(ca, cb, class_mapping, trees)
            },
            (MergedTree::MixedTree { .. }, _) => false,
            (_, MergedTree::MixedTree { .. }) => false,
            _ => same_plain(a, b),
        }
    }
}

/// Are the merged trees pairwise isomorphic?
fn children_merged<'b, 'a>(s: &Vec<MergedTree<'b, 'a>>, t: &Vec<MergedTree<'b, 'a>>, class_mapping: &ClassMapping, trees: &RevisionTrees<'b, 'a>) -> (res: bool)
    requires
        s@.len() == t@.len(),
        all_consistent(s@, 0, class_mapping@, *trees),
        all_consistent(t@, 0, class_mapping@, *trees),
    ensures
        res == children_merged_iso(s@, t@, 0, class_mapping@, *trees),
    decreases s@, s@.len() + 1,
{
    let mut k: usize = 0;
    while k < s.len()
        invariant
            0 <= k <= s@.len(),
            s@.len() == t@.len(),
            all_consistent(s@, k as int, class_mapping@, *trees),
            all_consistent(t@, 0, class_mapping@, *trees),
            children_merged_iso(s@, t@, 0, class_mapping@, *trees) == children_merged_iso(s@, t@, k as int, class_mapping@, *trees),
        decreases s@.len() - k,
    {
        proof {
            lemma_all_consistent(t@, 0, k as int, class_mapping@, *trees);
        }
        if !merged_merged(&s[k], &t[k], class_mapping, trees) {
            return false;
        }
        k = k + 1;
    }
    true
}

impl<'b, 'a> AstNodeEquiv<'b, 'a> {
    /// Whether two parts of trees, original or merged, are isomorphic. A merged tree that
    /// reproduces an original one is compared through the node of its class that the class
    /// mapping gives.
    pub fn isomorphic(&self, other: &Self, class_mapping: &ClassMapping, trees: &RevisionTrees<'b, 'a>) -> (res: bool)
        requires
            equiv_consistent(*self, class_mapping@, *trees),
            equiv_consistent(*other, class_mapping@, *trees),
        ensures
            res == equiv_iso(*self, *other, class_mapping@, *trees),
    {
        match (self, other) {
            (AstNodeEquiv::Original(a), AstNodeEquiv::Original(b)) => a.isomorphic_to(b),
            (AstNodeEquiv::Original(a), AstNodeEquiv::Merged(b)) => merged_orig(b, a, class_mapping, trees),
            (AstNodeEquiv::Merged(b), AstNodeEquiv::Original(a)) => merged_orig(b, a, class_mapping, trees),
            (AstNodeEquiv::Merged(a), AstNodeEquiv::Merged(b)) => merged_merged(a, b, class_mapping, trees),
        }
    }
}

/// Checks if two merged trees are isomorphic
pub fn isomorphic_merged_trees<'b, 'a>(a: &'b MergedTree<'b, 'a>, b: &'b MergedTree<'b, 'a>, class_mapping: &ClassMapping, trees: &RevisionTrees<'b, 'a>) -> (res: bool)
    requires
        consistent(*a, class_mapping@, *trees),
        consistent(*b, class_mapping@, *trees),
    ensures
        res == merged_iso(*a, *b, class_mapping@, *trees),
{
    AstNodeEquiv::Merged(a).isomorphic(&AstNodeEquiv::Merged(b), class_mapping, trees)
}

/// Isomorphism of original nodes does not depend on their order
proof fn lemma_iso_nodes_symmetric<'a>(a: AstNode<'a>, b: AstNode<'a>)
    ensures
        iso_nodes(a, b) == iso_nodes(b, a),
{
    lemma_same_shape_symmetric(a, b);
}

/// Isomorphism of merged trees does not depend on their order: a merged tree is isomorphic to
/// another exactly when the other is isomorphic to it.
pub proof fn law_merged_iso_symmetric<'b, 'a>(a: MergedTree<'b, 'a>, b: MergedTree<'b, 'a>, v: ClassMappingView, trees: RevisionTrees<'b, 'a>)
    requires
        consistent(a, v, trees),
        consistent(b, v, trees),
    ensures
        merged_iso(a, b, v, trees) == merged_iso(b, a, v, trees),
    decreases a, 1nat,
{
    if let MergedTree::ExactTree { node, revisions, .. } = a {
        if let MergedTree::ExactTree { node: nb, revisions: rb, .. } = b {
            let ra = exact_node(v, trees, node, revisions)->0;
            let rbb = exact_node(v, trees, nb, rb)->0;
            lemma_iso_nodes_symmetric(ra, rbb);
        }
    } else if let MergedTree::ExactTree { .. } = b {
    } else {
        match (a, b) {
            (MergedTree::MixedTree { node: na, children: ca, .. }, MergedTree::MixedTree { node: nb, children: cb, .. }) => {
                if ca@.len() == cb@.len() {
                    lemma_children_merged_iso_symmetric(ca@, cb@, 0, v, trees);
                }
            },
            _ => {},
        }
    }
}

proof fn lemma_children_merged_iso_symmetric<'b, 'a>(s: Seq<MergedTree<'b, 'a>>, t: Seq<MergedTree<'b, 'a>>, k: int, v: ClassMappingView, trees: RevisionTrees<'b, 'a>)
    requires
        s.len() == t.len(),
        0 <= k,
        all_consistent(s, k, v, trees),
        all_consistent(t, k, v, trees),
    ensures
        children_merged_iso(s, t, k, v, trees) == children_merged_iso(t, s, k, v, trees),
    decreases s, s.len() - k,
{
    if k < s.len() {
        law_merged_iso_symmetric(s[k], t[k], v, trees);
        lemma_children_merged_iso_symmetric(s, t, k + 1, v, trees);
    }
}

/// Isomorphism of parts of trees, original or merged, does not depend on their order.
pub proof fn law_equiv_iso_symmetric<'b, 'a>(x: AstNodeEquiv<'b, 'a>, y: AstNodeEquiv<'b, 'a>, v: ClassMappingView, trees: RevisionTrees<'b, 'a>)
    requires
        equiv_consistent(x, v, trees),
        equiv_consistent(y, v, trees),
    ensures
        equiv_iso(x, y, v, trees) == equiv_iso(y, x, v, trees),
{
    match (x, y) {
        (AstNodeEquiv::Original(a), AstNodeEquiv::Original(b)) => lemma_iso_nodes_symmetric(*a, *b),
        (AstNodeEquiv::Merged(a), AstNodeEquiv::Merged(b)) => law_merged_iso_symmetric(*a, *b, v, trees),
        _ => {},
    }
}

} // verus!
