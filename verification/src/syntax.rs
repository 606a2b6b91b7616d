use vstd::prelude::*;
use vstd::utf8::*;

verus! {

/// What a node of a syntax tree is, as far as the index distinguishes it.
#[derive(Clone, Copy, Debug, PartialEq, Eq, Structural)]
pub enum NodeKind {
    Module,
    ClassDefinition,
    FunctionDefinition,
    Identifier,
    StringLiteral,
    Parameters,
    Call,
    Other,
}

/// The part that a node plays in its parent.
#[derive(Clone, Copy, Debug, PartialEq, Eq, Structural)]
pub enum FieldRole {
    /// What a call invokes.
    Callee,
    /// The return annotation of a function definition.
    ReturnType,
    Other,
}

/// One node of a syntax tree. A tree is the sequence of its nodes in the order
/// in which a depth-first walk first meets them; `depth` is the number of
/// ancestors of the node. The node covers the bytes `start_byte..end_byte` of the
/// source text.
#[derive(Clone, Copy, Debug)]
pub struct SyntaxNode {
    pub kind: NodeKind,
    pub role: FieldRole,
    pub depth: usize,
    pub start_byte: usize,
    pub end_byte: usize,
    pub start_line: i32,
    pub end_line: i32,
}

/// Whether node `i` lies below the root and at most one level below the node before it.
pub open spec fn nests(nodes: Seq<SyntaxNode>, i: int) -> bool {
    1 <= nodes[i].depth <= nodes[i - 1].depth + 1
}

/// Whether the depths of `nodes` are those of one tree: the first node is the
/// root, and each later node lies at most one level below the node before it.
pub open spec fn well_nested(nodes: Seq<SyntaxNode>) -> bool {
    &&& nodes.len() >= 1
    &&& nodes[0].depth == 0
    &&& forall|i: int| 1 <= i < nodes.len() ==> #[trigger] nests(nodes, i)
}

/// Whether `node` covers whole characters of a text with the bytes `bytes`.
pub open spec fn span_fits(bytes: Seq<u8>, node: SyntaxNode) -> bool {
    &&& node.start_byte <= node.end_byte <= bytes.len()
    &&& is_char_boundary(bytes, node.start_byte as int)
    &&& is_char_boundary(bytes, node.end_byte as int)
}

/// Whether `node` covers lines in their order: it starts on a line that
/// there is, and ends on no earlier one.
pub open spec fn lines_fit(node: SyntaxNode) -> bool {
    0 <= node.start_line <= node.end_line
}

/// The characters that the bytes `start..end` of `source` encode.
pub open spec fn span_text(source: Seq<char>, start: int, end: int) -> Seq<char> {
    decode_utf8(encode_utf8(source).subrange(start, end))
}

/// The index behind the last of the nodes from `j` on that lie deeper than `depth`.
pub open spec fn run_end(nodes: Seq<SyntaxNode>, depth: int, j: int) -> int
    decreases nodes.len() - j,
{
    if 0 <= j < nodes.len() && nodes[j].depth > depth {
        run_end(nodes, depth, j + 1)
    } else {
        j
    }
}

/// The index behind the last descendant of node `i`: the subtree of `i` is
/// `nodes[i..subtree_end(nodes, i)]`.
pub open spec fn subtree_end(nodes: Seq<SyntaxNode>, i: int) -> int {
    run_end(nodes, nodes[i].depth as int, i + 1)
}

/// A run of deeper nodes from `j` to `e` that ends at `e` fixes `run_end`.
pub proof fn lemma_run_end_is(nodes: Seq<SyntaxNode>, depth: int, j: int, e: int)
    requires
        0 <= j <= e <= nodes.len(),
        forall|k: int| j <= k < e ==> (#[trigger] nodes[k]).depth > depth,
        e < nodes.len() ==> nodes[e].depth <= depth,
    ensures
        run_end(nodes, depth, j) == e,
    decreases e - j,
{
    if j < e {
        lemma_run_end_is(nodes, depth, j + 1, e);
    }
}

/// What a search asks of a node. A part that is `None` asks nothing.
#[derive(Clone, Copy, Debug)]
pub struct Pattern {
    pub kind: Option<NodeKind>,
    pub role: Option<FieldRole>,
    pub depth: Option<usize>,
}

impl Pattern {
    /// Whether `node` is what the pattern asks for.
    pub open spec fn matches(self, node: SyntaxNode) -> bool {
        &&& self.kind matches Some(kind) ==> node.kind == kind
        &&& self.role matches Some(role) ==> node.role == role
        &&& self.depth matches Some(depth) ==> node.depth == depth
    }

    /// Whether `node` is what the pattern asks for.
    pub fn test(self, node: SyntaxNode) -> (r: bool)
        ensures
            r == self.matches(node),
    {
        let kind_fits = match self.kind {
            Some(kind) => node.kind == kind,
            None => true,
        };
        let role_fits = match self.role {
            Some(role) => node.role == role,
            None => true,
        };
        let depth_fits = match self.depth {
            Some(depth) => node.depth == depth,
            None => true,
        };
        kind_fits && role_fits && depth_fits
    }

    /// Every node of one kind.
    pub fn of_kind(kind: NodeKind) -> (p: Pattern)
        ensures
            p == (Pattern { kind: Some(kind), role: None, depth: None }),
    {
        Pattern { kind: Some(kind), role: None, depth: None }
    }

    /// The nodes of one kind at one depth.
    pub fn of_kind_at(kind: NodeKind, depth: usize) -> (p: Pattern)
        ensures
            p == (Pattern { kind: Some(kind), role: None, depth: Some(depth) }),
    {
        Pattern { kind: Some(kind), role: None, depth: Some(depth) }
    }

    /// The nodes with one role at one depth.
    pub fn of_role_at(role: FieldRole, depth: usize) -> (p: Pattern)
        ensures
            p == (Pattern { kind: None, role: Some(role), depth: Some(depth) }),
    {
        Pattern { kind: None, role: Some(role), depth: Some(depth) }
    }
}

/// The least index in `lo..hi` whose node matches `pat`, or `hi` where none does.
pub open spec fn first_match(nodes: Seq<SyntaxNode>, pat: Pattern, lo: int, hi: int) -> int
    decreases hi - lo,
{
    if lo >= hi {
        hi
    } else if pat.matches(nodes[lo]) {
        lo
    } else {
        first_match(nodes, pat, lo + 1, hi)
    }
}

/// The indices in `lo..hi` whose nodes match `pat`, in ascending order.
pub open spec fn all_matches(nodes: Seq<SyntaxNode>, pat: Pattern, lo: int, hi: int) -> Seq<int>
    decreases hi - lo,
{
    if lo >= hi {
        Seq::empty()
    } else if pat.matches(nodes[hi - 1]) {
        all_matches(nodes, pat, lo, hi - 1).push(hi - 1)
    } else {
        all_matches(nodes, pat, lo, hi - 1)
    }
}

/// `all_matches` holds the matching indices of its range, each once and in
/// ascending order.
pub proof fn lemma_all_matches(nodes: Seq<SyntaxNode>, pat: Pattern, lo: int, hi: int)
    requires
        lo <= hi,
    ensures
        all_matches(nodes, pat, lo, hi).len() <= hi - lo,
        forall|k: int|
            0 <= k < all_matches(nodes, pat, lo, hi).len() ==> {
                let j = #[trigger] all_matches(nodes, pat, lo, hi)[k];
                lo <= j < hi && pat.matches(nodes[j])
            },
        forall|k: int, l: int|
            0 <= k < l < all_matches(nodes, pat, lo, hi).len() ==> all_matches(nodes, pat, lo, hi)[k]
                < all_matches(nodes, pat, lo, hi)[l],
        forall|j: int|
            lo <= j < hi && pat.matches(#[trigger] nodes[j]) ==> all_matches(
                nodes,
                pat,
                lo,
                hi,
            ).contains(j),
    decreases hi - lo,
{
    if lo < hi {
        lemma_all_matches(nodes, pat, lo, hi - 1);
        let before = all_matches(nodes, pat, lo, hi - 1);
        let now = all_matches(nodes, pat, lo, hi);
        assert forall|j: int| lo <= j < hi && pat.matches(#[trigger] nodes[j]) implies now.contains(
            j,
        ) by {
            if j < hi - 1 {
                let k = choose|k: int| 0 <= k < before.len() && before[k] == j;
                assert(now[k] == j);
            } else {
                assert(now[now.len() - 1] == j);
            }
        }
    }
}

/// A character boundary of a text is one of each prefix that ends at a
/// character boundary behind it.
pub proof fn lemma_boundary_in_prefix(bytes: Seq<u8>, start: int, end: int)
    requires
        valid_utf8(bytes),
        0 <= start <= end <= bytes.len(),
        is_char_boundary(bytes, start),
        is_char_boundary(bytes, end),
    ensures
        valid_utf8(bytes.subrange(0, end)),
        is_char_boundary(bytes.subrange(0, end), start),
{
    let prefix = bytes.subrange(0, end);
    valid_utf8_split(bytes, end);
    if start == end {
        is_char_boundary_start_end_of_seq(prefix);
    } else {
        is_char_boundary_iff_not_is_continuation_byte(bytes, start);
        is_char_boundary_iff_not_is_continuation_byte(prefix, start);
    }
}

/// A syntax tree with the source text that it was made from.
pub struct SyntaxTree {
    source: String,
    nodes: Vec<SyntaxNode>,
}

impl SyntaxTree {
    /// The source text.
    pub closed spec fn source(&self) -> Seq<char> {
        self.source@
    }

    /// The nodes, in the order of a depth-first walk.
    pub closed spec fn nodes(&self) -> Seq<SyntaxNode> {
        self.nodes@
    }

    /// The tree is one tree, and each node covers whole characters of the
    /// source, and lines in their order.
    pub open spec fn wf(&self) -> bool {
        &&& well_nested(self.nodes())
        &&& forall|i: int|
            0 <= i < self.nodes().len() ==> span_fits(
                encode_utf8(self.source()),
                #[trigger] self.nodes()[i],
            ) && lines_fit(self.nodes()[i])
    }

    /// The source text that node `i` covers.
    pub open spec fn text_of(&self, i: int) -> Seq<char> {
        span_text(self.source(), self.nodes()[i].start_byte as int, self.nodes()[i].end_byte as int)
    }

    /// The tree of `nodes` over `source`, where they form one.
    pub fn new(source: String, nodes: Vec<SyntaxNode>) -> (r: Option<SyntaxTree>)
        ensures
            r is Some <==> well_nested(nodes@) && forall|i: int|
                0 <= i < nodes@.len() ==> span_fits(encode_utf8(source@), #[trigger] nodes@[i])
                    && lines_fit(nodes@[i]),
            r matches Some(t) ==> t.wf() && t.source() == source@ && t.nodes() == nodes@,
    {
        let n = nodes.len();
        if n == 0 || nodes[0].depth != 0 {
            return None;
        }
        let text = source.as_str();
        let size = text.as_bytes().len();
        let mut i: usize = 0;
        while i < n
            invariant
                i <= n == nodes@.len(),
                n >= 1,
                nodes@[0].depth == 0,
                text@ == source@,
                size == encode_utf8(source@).len(),
                forall|k: int| 1 <= k < i ==> #[trigger] nests(nodes@, k),
                forall|k: int|
                    0 <= k < i ==> span_fits(encode_utf8(source@), #[trigger] nodes@[k])
                        && lines_fit(nodes@[k]),
            decreases n - i,
        {
            let node = nodes[i];
            if i > 0 {
                let above = nodes[i - 1].depth;
                if node.depth < 1 || node.depth - 1 > above {
                    assert(!nests(nodes@, i as int));
                    return None;
                }
            }
            if node.start_byte > node.end_byte || node.end_byte > size || !text.is_char_boundary(
                node.start_byte,
            ) || !text.is_char_boundary(node.end_byte) {
                assert(!span_fits(encode_utf8(source@), nodes@[i as int]));
                return None;
            }
            if node.start_line < 0 || node.start_line > node.end_line {
                assert(!lines_fit(nodes@[i as int]));
                return None;
            }
            i += 1;
        }
        Some(SyntaxTree { source, nodes })
    }

    /// The source text that node `i` covers.
    pub fn text(&self, i: usize) -> (out: String)
        requires
            self.wf(),
            i < self.nodes().len(),
        ensures
            out@ == self.text_of(i as int),
    {
        let node = self.nodes[i];
        let whole = self.source.as_str();
        proof {
            encode_utf8_valid_utf8(whole@);
            lemma_boundary_in_prefix(
                encode_utf8(whole@),
                node.start_byte as int,
                node.end_byte as int,
            );
        }
        let (head, _) = whole.split_at(node.end_byte);
        let (_, mid) = head.split_at(node.start_byte);
        proof {
            encode_utf8_decode_utf8(mid@);
            assert(encode_utf8(mid@) == encode_utf8(whole@).subrange(
                node.start_byte as int,
                node.end_byte as int,
            ));
        }
        mid.to_owned()
    }

    /// The index behind the last descendant of node `i`.
    pub fn subtree_end(&self, i: usize) -> (e: usize)
        requires
            i < self.nodes().len(),
        ensures
            e == subtree_end(self.nodes(), i as int),
            i < e <= self.nodes().len(),
    {
        let n = self.nodes.len();
        let depth = self.nodes[i].depth;
        let mut e: usize = i + 1;
        while e < n && self.nodes[e].depth > depth
            invariant
                i < e <= n == self.nodes@.len(),
                forall|k: int| i < k < e ==> (#[trigger] self.nodes@[k]).depth > depth,
            decreases self.nodes@.len() - e,
        {
            e += 1;
        }
        proof {
            lemma_run_end_is(self.nodes@, depth as int, i + 1, e as int);
        }
        e
    }

    /// The first node in `lo..hi` that matches `pat`.
    pub fn find_first(&self, pat: Pattern, lo: usize, hi: usize) -> (r: Option<usize>)
        requires
            lo <= hi <= self.nodes().len(),
        ensures
            match r {
                Some(k) => lo <= k < hi && k == first_match(self.nodes(), pat, lo as int, hi as int),
                None => first_match(self.nodes(), pat, lo as int, hi as int) == hi,
            },
    {
        let mut j: usize = lo;
        while j < hi
            invariant
                lo <= j <= hi <= self.nodes@.len(),
                first_match(self.nodes@, pat, lo as int, hi as int) == first_match(
                    self.nodes@,
                    pat,
                    j as int,
                    hi as int,
                ),
            decreases hi - j,
        {
            if pat.test(self.nodes[j]) {
                return Some(j);
            }
            j += 1;
        }
        None
    }

    /// The nodes in `lo..hi` that match `pat`, in ascending order.
    pub fn find_all(&self, pat: Pattern, lo: usize, hi: usize) -> (r: Vec<usize>)
        requires
            lo <= hi <= self.nodes().len(),
        ensures
            r@.len() == all_matches(self.nodes(), pat, lo as int, hi as int).len(),
            forall|k: int|
                0 <= k < r@.len() ==> (#[trigger] r@[k]) == all_matches(
                    self.nodes(),
                    pat,
                    lo as int,
                    hi as int,
                )[k],
    {
        let mut r: Vec<usize> = Vec::new();
        let mut j: usize = lo;
        while j < hi
            invariant
                lo <= j <= hi <= self.nodes@.len(),
                r@.len() == all_matches(self.nodes@, pat, lo as int, j as int).len(),
                forall|k: int|
                    0 <= k < r@.len() ==> (#[trigger] r@[k]) == all_matches(
                        self.nodes@,
                        pat,
                        lo as int,
                        j as int,
                    )[k],
            decreases hi - j,
        {
            if pat.test(self.nodes[j]) {
                r.push(j);
            }
            j += 1;
        }
        r
    }

    /// The number of nodes.
    pub fn len(&self) -> (n: usize)
        ensures
            n == self.nodes().len(),
    {
        self.nodes.len()
    }

    /// Node `i`.
    pub fn node(&self, i: usize) -> (node: SyntaxNode)
        requires
            i < self.nodes().len(),
        ensures
            node == self.nodes()[i as int],
    {
        self.nodes[i]
    }
}

} // verus!
