use crate::db::{
    description_of, edges_of, get_dependencies, get_function_description, pair_views, same_class,
    Store, StoreView,
};
use crate::models::DependencyEdgeView;
use crate::text::same_text;
use vstd::prelude::*;
use vstd::string::StringExecFns;

verus! {

/// One entry of a call flow: a function, how deep below the entry point it was
/// reached, and what it is for.
#[derive(Debug)]
pub struct FlowLine {
    pub name: String,
    pub class_id: Option<i32>,
    pub level: usize,
    pub description: String,
}

/// An entry of a call flow, as contracts see it.
pub struct FlowLineView {
    pub name: Seq<char>,
    pub class_id: Option<i32>,
    pub level: nat,
    pub description: Seq<char>,
}

impl View for FlowLine {
    type V = FlowLineView;

    open spec fn view(&self) -> FlowLineView {
        FlowLineView {
            name: self.name@,
            class_id: self.class_id,
            level: self.level as nat,
            description: self.description@,
        }
    }
}

/// The views of the lines `lines`.
pub open spec fn line_views(lines: Seq<FlowLine>) -> Seq<FlowLineView> {
    Seq::new(lines.len(), |k: int| lines[k]@)
}

/// What is written for a function that the store describes nowhere.
pub open spec fn placeholder() -> Seq<char> {
    "No description available"@
}

/// The entry for the function `key` at the level `level`.
pub open spec fn line_of(store: StoreView, key: (Seq<char>, Option<i32>), level: nat) -> FlowLineView {
    FlowLineView {
        name: key.0,
        class_id: key.1,
        level,
        description: match description_of(store.functions, key.0, key.1) {
            Some(text) => text,
            None => placeholder(),
        },
    }
}

/// Whether `lines` holds an entry for the function `key`.
pub open spec fn has_line(lines: Seq<FlowLineView>, key: (Seq<char>, Option<i32>)) -> bool {
    exists|k: int| 0 <= k < lines.len() && #[trigger] lines[k].name == key.0 && lines[k].class_id == key.1
}

/// Whether one of `edges` leads to the function `key`.
pub open spec fn is_callee(edges: Seq<DependencyEdgeView>, key: (Seq<char>, Option<i32>)) -> bool {
    exists|k: int|
        0 <= k < edges.len() && #[trigger] edges[k].dependency == key.0 && edges[k].class_id
            == key.1
}

/// The number of `edges` that lead to a function without an entry in `lines`.
pub open spec fn unvisited(edges: Seq<DependencyEdgeView>, lines: Seq<FlowLineView>) -> nat
    decreases edges.len(),
{
    if edges.len() == 0 {
        0
    } else if has_line(lines, (edges.last().dependency, edges.last().class_id)) {
        unvisited(edges.drop_last(), lines)
    } else {
        unvisited(edges.drop_last(), lines) + 1
    }
}

/// One more entry leaves no more edges unvisited, and fewer where it is the
/// first entry for a function that one of the edges leads to.
pub proof fn lemma_unvisited_shrinks(
    edges: Seq<DependencyEdgeView>,
    lines: Seq<FlowLineView>,
    line: FlowLineView,
)
    ensures
        unvisited(edges, lines.push(line)) <= unvisited(edges, lines),
        is_callee(edges, (line.name, line.class_id)) && !has_line(lines, (line.name, line.class_id))
            ==> unvisited(edges, lines.push(line)) < unvisited(edges, lines),
    decreases edges.len(),
{
    let more = lines.push(line);
    let key = (line.name, line.class_id);
    if edges.len() > 0 {
        let front = edges.drop_last();
        let last = (edges.last().dependency, edges.last().class_id);
        lemma_unvisited_shrinks(front, lines, line);
        if has_line(lines, last) {
            let k = choose|k: int|
                0 <= k < lines.len() && #[trigger] lines[k].name == last.0 && lines[k].class_id
                    == last.1;
            assert(more[k].name == last.0 && more[k].class_id == last.1);
            assert(has_line(more, last));
        }
        if is_callee(edges, key) && !has_line(lines, key) {
            if last == key {
                assert(more[lines.len() as int].name == key.0 && more[lines.len() as int].class_id
                    == key.1);
                assert(has_line(more, last));
            } else {
                let k = choose|k: int|
                    0 <= k < edges.len() && #[trigger] edges[k].dependency == key.0
                        && edges[k].class_id == key.1;
                assert(k < front.len());
                assert(front[k].dependency == key.0 && front[k].class_id == key.1);
                assert(is_callee(front, key));
            }
        }
    }
}

/// A function with its level, as it waits to be visited.
pub struct Pending {
    pub name: String,
    pub class_id: Option<i32>,
    pub level: usize,
}

/// A waiting function, as contracts see it.
pub struct PendingView {
    pub key: (Seq<char>, Option<i32>),
    pub level: nat,
}

impl View for Pending {
    type V = PendingView;

    open spec fn view(&self) -> PendingView {
        PendingView { key: (self.name@, self.class_id), level: self.level as nat }
    }
}

/// The views of the waiting functions `stack`.
pub open spec fn pending_views(stack: Seq<Pending>) -> Seq<PendingView> {
    Seq::new(stack.len(), |k: int| stack[k]@)
}

/// The functions `deps` at the level `level`, the first of them last.
pub open spec fn waiting(deps: Seq<(Seq<char>, Option<i32>)>, level: nat) -> Seq<PendingView> {
    Seq::new(deps.len(), |k: int| PendingView { key: deps[deps.len() - 1 - k], level })
}

/// Whether one of `edges` leads to each function of `stack`.
pub open spec fn all_callees(edges: Seq<DependencyEdgeView>, stack: Seq<PendingView>) -> bool {
    forall|k: int| 0 <= k < stack.len() ==> is_callee(edges, (#[trigger] stack[k]).key)
}

/// The call flow that grows out of `lines` while the functions of `stack` wait,
/// the next of them last: a function that has an entry is passed over; any
/// other gets its entry, and what it calls waits next, one level deeper, in the
/// order of the dependencies.
pub open spec fn flow_from(
    store: StoreView,
    stack: Seq<PendingView>,
    lines: Seq<FlowLineView>,
) -> Seq<FlowLineView>
    decreases unvisited(store.dependencies, lines), stack.len(),
    when all_callees(store.dependencies, stack)
{
    if stack.len() == 0 {
        lines
    } else {
        let next = stack.last();
        if has_line(lines, next.key) {
            flow_from(store, stack.drop_last(), lines)
        } else {
            proof {
                lemma_unvisited_shrinks(
                    store.dependencies,
                    lines,
                    line_of(store, next.key, next.level),
                );
            }
            flow_from(
                store,
                stack.drop_last() + waiting(
                    edges_of(store.dependencies, next.key.0, next.key.1),
                    next.level + 1,
                ),
                lines.push(line_of(store, next.key, next.level)),
            )
        }
    }
}

/// The call flow from the function `name` of the class `class_id`, or of no
/// class where none is given: the entries in the order of a depth-first walk
/// along the dependencies, one for each function that the walk reaches.
pub open spec fn flow(store: StoreView, name: Seq<char>, class_id: Option<i32>) -> Seq<FlowLineView> {
    flow_from(
        store,
        waiting(edges_of(store.dependencies, name, class_id), 1),
        seq![line_of(store, (name, class_id), 0)],
    )
}

/// Each dependency that the edges record for a function is one that an edge leads to.
pub proof fn lemma_edges_lead_to_callees(
    edges: Seq<DependencyEdgeView>,
    all: Seq<DependencyEdgeView>,
    name: Seq<char>,
    class_id: Option<i32>,
)
    requires
        edges.len() <= all.len(),
        edges == all.take(edges.len() as int),
    ensures
        forall|k: int|
            0 <= k < edges_of(edges, name, class_id).len() ==> is_callee(
                all,
                #[trigger] edges_of(edges, name, class_id)[k],
            ),
    decreases edges.len(),
{
    if edges.len() > 0 {
        let front = edges.drop_last();
        assert(front == all.take(front.len() as int));
        lemma_edges_lead_to_callees(front, all, name, class_id);
        let last = edges.last();
        assert(all[edges.len() - 1] == last);
        assert forall|k: int| 0 <= k < edges_of(edges, name, class_id).len() implies is_callee(
            all,
            #[trigger] edges_of(edges, name, class_id)[k],
        ) by {
            if k < edges_of(front, name, class_id).len() {
                assert(edges_of(edges, name, class_id)[k] == edges_of(front, name, class_id)[k]);
            } else {
                let j = edges.len() - 1;
                assert(all[j].dependency == last.dependency && all[j].class_id == last.class_id);
            }
        }
    }
}

/// An edge leads to each function that waits after a function was visited.
pub proof fn lemma_waiting_are_callees(
    edges: Seq<DependencyEdgeView>,
    stack: Seq<PendingView>,
    name: Seq<char>,
    class_id: Option<i32>,
    level: nat,
)
    requires
        all_callees(edges, stack),
    ensures
        all_callees(edges, stack + waiting(edges_of(edges, name, class_id), level)),
{
    assert(edges == edges.take(edges.len() as int));
    lemma_edges_lead_to_callees(edges, edges, name, class_id);
    let deps = edges_of(edges, name, class_id);
    let more = stack + waiting(deps, level);
    assert forall|k: int| 0 <= k < more.len() implies is_callee(edges, (#[trigger] more[k]).key) by {
        if k < stack.len() {
            assert(more[k] == stack[k]);
        } else {
            let j = k - stack.len();
            assert(more[k] == waiting(deps, level)[j]);
            assert(more[k].key == deps[deps.len() - 1 - j]);
        }
    }
}

/// Whether `lines` holds an entry for the function `name` of the class `class_id`.
pub fn has_entry(lines: &Vec<FlowLine>, name: &str, class_id: Option<i32>) -> (r: bool)
    ensures
        r == has_line(line_views(lines@), (name@, class_id)),
{
    let mut k: usize = 0;
    while k < lines.len()
        invariant
            k <= lines@.len(),
            forall|j: int|
                0 <= j < k ==> !(line_views(lines@)[j].name == name@ && line_views(
                    lines@,
                )[j].class_id == class_id),
        decreases lines@.len() - k,
    {
        if same_text(lines[k].name.as_str(), name) && same_class(lines[k].class_id, class_id) {
            assert(line_views(lines@)[k as int].name == name@ && line_views(
                lines@,
            )[k as int].class_id == class_id);
            return true;
        }
        k += 1;
    }
    false
}

/// The entry for the function `name` of the class `class_id` at the level `level`.
pub fn make_line(store: &Store, name: &str, class_id: Option<i32>, level: usize) -> (line: FlowLine)
    ensures
        line@ == line_of(store@, (name@, class_id), level as nat),
{
    let description = match get_function_description(store, name, class_id) {
        Ok(text) => text,
        Err(_) => "No description available".to_owned(),
    };
    FlowLine { name: name.to_owned(), class_id, level, description }
}

/// Lets the functions `deps` wait on `stack` at the level `level`, the first of them last.
pub fn push_waiting(stack: &mut Vec<Pending>, deps: &Vec<(String, Option<i32>)>, level: usize)
    ensures
        pending_views(final(stack)@) == pending_views(old(stack)@) + waiting(
            pair_views(deps@),
            level as nat,
        ),
        forall|k: int| 0 <= k < old(stack)@.len() ==> final(stack)@[k] == old(stack)@[k],
        forall|k: int| old(stack)@.len() <= k < final(stack)@.len() ==> final(stack)@[k].level == level,
{
    let n = deps.len();
    let mut k: usize = 0;
    let ghost target = waiting(pair_views(deps@), level as nat);
    assert(pending_views(stack@) =~= pending_views(old(stack)@) + target.take(0));
    while k < n
        invariant
            k <= n == deps@.len(),
            target == waiting(pair_views(deps@), level as nat),
            stack@.len() == old(stack)@.len() + k,
            pending_views(stack@) == pending_views(old(stack)@) + target.take(k as int),
            forall|j: int| 0 <= j < old(stack)@.len() ==> stack@[j] == old(stack)@[j],
            forall|j: int| old(stack)@.len() <= j < stack@.len() ==> stack@[j].level == level,
        decreases n - k,
    {
        let dep = &deps[n - 1 - k];
        let item = Pending { name: dep.0.clone(), class_id: dep.1, level };
        proof {
            assert(target[k as int] == item@);
            assert(pending_views(stack@.push(item)) =~= pending_views(stack@).push(item@));
            assert(target.take(k + 1) =~= target.take(k as int).push(item@));
            assert(pending_views(old(stack)@) + target.take(k as int).push(item@) =~= (
            pending_views(old(stack)@) + target.take(k as int)).push(item@));
        }
        stack.push(item);
        k += 1;
    }
    assert(target.take(k as int) == target);
}

/// The call flow from the function `function_name` of the class `class_id`,
/// or of no class where none is given. The entries made so far are the set of
/// visited functions, and the waiting functions are a stack, so that no call
/// nests as deep as the flow; a function is looked up among the entries by
/// comparing texts, as vstd gives `String` no model as a key of a hash set.
pub fn build_flow(store: &Store, function_name: &str, class_id: Option<i32>) -> (lines: Vec<
    FlowLine,
>)
    ensures
        line_views(lines@) == flow(store@, function_name@, class_id),
{
    let ghost edges = store@.dependencies;
    let mut lines: Vec<FlowLine> = Vec::new();
    let mut stack: Vec<Pending> = Vec::new();
    let first = make_line(store, function_name, class_id, 0);
    lines.push(first);
    let deps = get_dependencies(store, function_name, class_id);
    push_waiting(&mut stack, &deps, 1);
    proof {
        assert(line_views(lines@) =~= seq![line_of(store@, (function_name@, class_id), 0)]);
        assert(pending_views(stack@) =~= waiting(edges_of(edges, function_name@, class_id), 1));
        lemma_waiting_are_callees(edges, Seq::empty(), function_name@, class_id, 1);
        assert(Seq::<PendingView>::empty() + waiting(edges_of(edges, function_name@, class_id), 1)
            =~= waiting(edges_of(edges, function_name@, class_id), 1));
    }
    while stack.len() > 0
        invariant
            edges == store@.dependencies,
            lines@.len() >= 1,
            all_callees(edges, pending_views(stack@)),
            forall|k: int| 0 <= k < stack@.len() ==> (#[trigger] stack@[k]).level <= lines@.len(),
            flow_from(store@, pending_views(stack@), line_views(lines@)) == flow(
                store@,
                function_name@,
                class_id,
            ),
        decreases unvisited(edges, line_views(lines@)), stack@.len(),
    {
        let ghost waiting_before = pending_views(stack@);
        let ghost lines_before = line_views(lines@);
        assert(stack@[stack@.len() - 1].level <= lines@.len());
        let next = stack.pop().unwrap();
        proof {
            assert(waiting_before.last() == next@);
            assert(pending_views(stack@) =~= waiting_before.drop_last());
            assert forall|k: int| 0 <= k < stack@.len() implies is_callee(
                edges,
                (#[trigger] pending_views(stack@)[k]).key,
            ) by {
                assert(pending_views(stack@)[k] == waiting_before[k]);
            }
        }
        if !has_entry(&lines, next.name.as_str(), next.class_id) {
            let line = make_line(store, next.name.as_str(), next.class_id, next.level);
            proof {
                assert(is_callee(edges, waiting_before[waiting_before.len() - 1].key));
                lemma_unvisited_shrinks(edges, lines_before, line@);
                assert(line_views(lines@.push(line)) =~= lines_before.push(line@));
                lemma_waiting_are_callees(
                    edges,
                    pending_views(stack@),
                    next.name@,
                    next.class_id,
                    (next.level + 1) as nat,
                );
            }
            lines.push(line);
            let count = lines.len();
            assert(next.level < count);
            let deps = get_dependencies(store, next.name.as_str(), next.class_id);
            push_waiting(&mut stack, &deps, next.level + 1);
        }
    }
    lines
}

/// Whether no two of `lines` are entries for the same function.
pub open spec fn distinct_keys(lines: Seq<FlowLineView>) -> bool {
    forall|a: int, b: int|
        0 <= a < b < lines.len() ==> !((#[trigger] lines[a]).name == (#[trigger] lines[b]).name
            && lines[a].class_id == lines[b].class_id)
}

/// A call flow keeps the entries that it grows out of, and gives no function
/// a second entry.
pub proof fn lemma_flow_from_visits_once(
    store: StoreView,
    stack: Seq<PendingView>,
    lines: Seq<FlowLineView>,
)
    requires
        all_callees(store.dependencies, stack),
        distinct_keys(lines),
    ensures
        distinct_keys(flow_from(store, stack, lines)),
        flow_from(store, stack, lines).len() >= lines.len(),
        forall|k: int| 0 <= k < lines.len() ==> flow_from(store, stack, lines)[k] == lines[k],
    decreases unvisited(store.dependencies, lines), stack.len(),
{
    if stack.len() > 0 {
        let next = stack.last();
        let rest = stack.drop_last();
        assert forall|k: int| 0 <= k < rest.len() implies is_callee(
            store.dependencies,
            (#[trigger] rest[k]).key,
        ) by {
            assert(rest[k] == stack[k]);
        }
        if has_line(lines, next.key) {
            lemma_flow_from_visits_once(store, rest, lines);
        } else {
            let line = line_of(store, next.key, next.level);
            let more = lines.push(line);
            assert(is_callee(store.dependencies, stack[stack.len() - 1].key));
            lemma_unvisited_shrinks(store.dependencies, lines, line);
            lemma_waiting_are_callees(
                store.dependencies,
                rest,
                next.key.0,
                next.key.1,
                next.level + 1,
            );
            assert forall|a: int, b: int| 0 <= a < b < more.len() implies !((
            #[trigger] more[a]).name == (#[trigger] more[b]).name && more[a].class_id
                == more[b].class_id) by {
                if b == lines.len() {
                    assert(more[a] == lines[a]);
                    if lines[a].name == next.key.0 && lines[a].class_id == next.key.1 {
                        assert(has_line(lines, next.key));
                    }
                } else {
                    assert(more[a] == lines[a] && more[b] == lines[b]);
                }
            }
            let grown = rest + waiting(
                edges_of(store.dependencies, next.key.0, next.key.1),
                next.level + 1,
            );
            lemma_flow_from_visits_once(store, grown, more);
            assert forall|k: int| 0 <= k < lines.len() implies flow_from(store, stack, lines)[k]
                == lines[k] by {
                assert(more[k] == lines[k]);
            }
        }
    }
}

/// The call flow from a function starts with the entry for that function, and
/// holds no second entry for it or for any other function, whatever calls
/// whatever.
pub proof fn lemma_flow_visits_once(store: StoreView, name: Seq<char>, class_id: Option<i32>)
    ensures
        distinct_keys(flow(store, name, class_id)),
        flow(store, name, class_id).len() >= 1,
        flow(store, name, class_id)[0] == line_of(store, (name, class_id), 0),
        forall|k: int|
            1 <= k < flow(store, name, class_id).len() ==> !((#[trigger] flow(
                store,
                name,
                class_id,
            )[k]).name == name && flow(store, name, class_id)[k].class_id == class_id),
{
    let first = seq![line_of(store, (name, class_id), 0)];
    let stack = waiting(edges_of(store.dependencies, name, class_id), 1);
    lemma_waiting_are_callees(store.dependencies, Seq::empty(), name, class_id, 1);
    assert(Seq::<PendingView>::empty() + stack =~= stack);
    lemma_flow_from_visits_once(store, stack, first);
    let all = flow(store, name, class_id);
    assert(all[0] == first[0]);
}

/// The call flow from a function of which the store holds neither a
/// description nor a dependency is the one entry for that function, with the
/// placeholder for its description.
pub proof fn lemma_flow_of_absent_entry(store: StoreView, name: Seq<char>, class_id: Option<i32>)
    requires
        description_of(store.functions, name, class_id) is None,
        edges_of(store.dependencies, name, class_id).len() == 0,
    ensures
        flow(store, name, class_id) == seq![
            FlowLineView { name, class_id, level: 0, description: placeholder() },
        ],
{
    let stack = waiting(edges_of(store.dependencies, name, class_id), 1);
    assert(stack.len() == 0);
    assert(all_callees(store.dependencies, stack));
}

/// The white space before an entry at the level `level`: two spaces for each level.
pub open spec fn indent(level: nat) -> Seq<char>
    decreases level,
{
    if level == 0 {
        Seq::empty()
    } else {
        indent((level - 1) as nat) + "  "@
    }
}

/// The two lines of text for one entry: the function, and below it what it is for.
pub open spec fn render_line(line: FlowLineView) -> Seq<char> {
    indent(line.level) + "- Function: "@ + line.name + "\n"@ + indent(line.level)
        + "  - Purpose: "@ + line.description + "\n"@
}

/// The text for the entries `lines`.
pub open spec fn render(lines: Seq<FlowLineView>) -> Seq<char>
    decreases lines.len(),
{
    if lines.len() == 0 {
        Seq::empty()
    } else {
        render(lines.drop_last()) + render_line(lines.last())
    }
}

/// Appends the white space before an entry at the level `level` to `out`.
pub fn push_indent(out: &mut String, level: usize)
    ensures
        final(out)@ == old(out)@ + indent(level as nat),
{
    let mut k: usize = 0;
    assert(out@ =~= old(out)@ + indent(0));
    while k < level
        invariant
            k <= level,
            out@ == old(out)@ + indent(k as nat),
        decreases level - k,
    {
        out.append("  ");
        k += 1;
        assert(out@ =~= old(out)@ + indent(k as nat));
    }
}

/// The text for the entries `lines`.
pub fn render_flow(lines: &Vec<FlowLine>) -> (out: String)
    ensures
        out@ == render(line_views(lines@)),
{
    let mut out = String::new();
    let mut k: usize = 0;
    let ghost all = line_views(lines@);
    while k < lines.len()
        invariant
            k <= lines@.len(),
            all == line_views(lines@),
            out@ == render(all.take(k as int)),
        decreases lines@.len() - k,
    {
        let line = &lines[k];
        let ghost before = out@;
        proof {
            assert(all.take(k + 1).drop_last() == all.take(k as int));
            assert(all.take(k + 1).last() == line@);
        }
        push_indent(&mut out, line.level);
        out.append("- Function: ");
        out.append(line.name.as_str());
        out.append("\n");
        push_indent(&mut out, line.level);
        out.append("  - Purpose: ");
        out.append(line.description.as_str());
        out.append("\n");
        assert(out@ =~= before + render_line(line@));
        k += 1;
    }
    assert(all.take(k as int) == all);
    out
}

/// The call flow from the function `entry` of no class, as text.
pub fn reconstruct_flow(store: &Store, entry: &str) -> (out: String)
    ensures
        out@ == render(flow(store@, entry@, None)),
{
    let lines = build_flow(store, entry, None);
    render_flow(&lines)
}

/// The call flow of a program, from its function `main` on, below a heading.
pub fn format_program_flow(store: &Store) -> (out: String)
    ensures
        out@ == "The program follows this logic flow:\n\n"@ + render(flow(store@, "main"@, None)),
{
    let mut out = "The program follows this logic flow:\n\n".to_owned();
    let body = reconstruct_flow(store, "main");
    out.append(body.as_str());
    out
}

/// What the request for the intent of a query says before the query.
pub const INTENT_REQUEST: &'static str =
    "Classify the user query into one of the following categories: \
        ['Casual Chat', 'Overall Code Logic']. \
        Return only the result category. \
        User Query: '";

/// The request that asks what the query `query` of a user is about.
pub fn intent_prompt(query: &str) -> (out: String)
    ensures
        out@ == INTENT_REQUEST@ + query@ + "'"@,
{
    let mut out = INTENT_REQUEST.to_owned();
    out.append(query);
    out.append("'");
    out
}

/// What a query of a user is about.
#[derive(Clone, Copy, Debug, PartialEq, Eq, Structural)]
pub enum Intent {
    CasualChat,
    CodeLogic,
    Unrecognized,
}

/// What a query is about, given the category `answer` that it was put in.
pub open spec fn intent_of(answer: Seq<char>) -> Intent {
    if answer == "Overall Code Logic"@ {
        Intent::CodeLogic
    } else if answer == "Casual Chat"@ {
        Intent::CasualChat
    } else {
        Intent::Unrecognized
    }
}

/// What a query is about, given the category `answer` that it was put in.
pub fn classify_answer(answer: &str) -> (intent: Intent)
    ensures
        intent == intent_of(answer@),
{
    if same_text(answer, "Overall Code Logic") {
        Intent::CodeLogic
    } else if same_text(answer, "Casual Chat") {
        Intent::CasualChat
    } else {
        Intent::Unrecognized
    }
}

/// What the request for a summary of the code says before the call flow.
pub const LOGIC_REQUEST: &'static str =
    "Provide a summary of the overall code logic for a repository. \
                Here is the code flow:\n\n";

/// What the request for a summary of the code says behind the call flow.
pub const LOGIC_TASK: &'static str =
    "\n\n\
                Summarize the main purpose and flow of the repository.";

/// What is asked of the assistant for the query `query` with the intent
/// `intent`, where `flow` is the call flow of the program.
pub open spec fn query_text(intent: Intent, query: Seq<char>, flow: Seq<char>) -> Seq<char> {
    match intent {
        Intent::CodeLogic => LOGIC_REQUEST@ + flow + LOGIC_TASK@,
        Intent::CasualChat => "The user said: '"@ + query + "'. Respond in a friendly manner."@,
        Intent::Unrecognized => "Unrecognized intent.\n\nUser's Query: '"@ + query + "'"@,
    }
}

/// What is asked of the assistant for the query `query` with the intent
/// `intent`: for a question about the code, a summary of the call flow of the
/// program in `store`.
pub fn query_content(intent: Intent, query: &str, store: &Store) -> (out: String)
    ensures
        out@ == query_text(
            intent,
            query@,
            "The program follows this logic flow:\n\n"@ + render(flow(store@, "main"@, None)),
        ),
{
    match intent {
        Intent::CodeLogic => {
            let logic_flow = format_program_flow(store);
            let mut out = LOGIC_REQUEST.to_owned();
            out.append(logic_flow.as_str());
            out.append(LOGIC_TASK);
            out
        },
        Intent::CasualChat => {
            let mut out = "The user said: '".to_owned();
            out.append(query);
            out.append("'. Respond in a friendly manner.");
            out
        },
        Intent::Unrecognized => {
            let mut out = "Unrecognized intent.\n\nUser's Query: '".to_owned();
            out.append(query);
            out.append("'");
            out
        },
    }
}

} // verus!
