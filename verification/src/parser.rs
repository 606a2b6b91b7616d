use crate::db::{
    insert_class, insert_dependencies, insert_function, lemma_with_class,
    lemma_with_dependencies, lemma_with_function, Store, StoreView,
};
use crate::grammar::{nodes_of, parse_source, parsed_nodes, parses};
use crate::models::{
    text_opt, Class, ClassView, DependencyEdgeView, Function, FunctionView, IndexError,
};
use crate::syntax::{
    all_matches, first_match, lemma_all_matches, nests, subtree_end, well_nested, FieldRole,
    NodeKind, Pattern, SyntaxNode, SyntaxTree,
};
use crate::text::{
    attributes_of, classify_attributes, distinct, find_last, from_chars, holds_text, join,
    join_texts, last_index, lemma_distinct, same_text, strip_brackets, texts, to_chars, trim,
    trim_range, without_brackets, CharSet,
};
use vstd::prelude::*;
use vstd::string::StringExecFns;

verus! {

/// In one tree no node lies deeper than its index.
pub proof fn lemma_depth_bound(nodes: Seq<SyntaxNode>, i: int)
    requires
        well_nested(nodes),
        0 <= i < nodes.len(),
    ensures
        nodes[i].depth <= i,
    decreases i,
{
    if i > 0 {
        lemma_depth_bound(nodes, i - 1);
        assert(nests(nodes, i));
    }
}

/// What finds the children of node `i` that have the kind `kind`.
pub open spec fn child_of_kind(nodes: Seq<SyntaxNode>, i: int, kind: NodeKind) -> Pattern {
    Pattern { kind: Some(kind), role: None, depth: Some((nodes[i].depth + 1) as usize) }
}

/// What finds the children of node `i` that play the part `role`.
pub open spec fn child_of_role(nodes: Seq<SyntaxNode>, i: int, role: FieldRole) -> Pattern {
    Pattern { kind: None, role: Some(role), depth: Some((nodes[i].depth + 1) as usize) }
}

/// What finds the nodes of the kind `kind`.
pub open spec fn any_of_kind(kind: NodeKind) -> Pattern {
    Pattern { kind: Some(kind), role: None, depth: None }
}

/// The first node below node `i` that matches `pat`.
pub open spec fn first_below(nodes: Seq<SyntaxNode>, i: int, pat: Pattern) -> Option<int> {
    let end = subtree_end(nodes, i);
    let k = first_match(nodes, pat, i + 1, end);
    if k < end {
        Some(k)
    } else {
        None
    }
}

/// The first node below node `i` that matches `pat`.
pub fn find_below(tree: &SyntaxTree, i: usize, pat: Pattern) -> (r: Option<usize>)
    requires
        i < tree.nodes().len(),
    ensures
        match r {
            Some(k) => first_below(tree.nodes(), i as int, pat) == Some(k as int) && i < k
                < tree.nodes().len(),
            None => first_below(tree.nodes(), i as int, pat) is None,
        },
{
    let end = tree.subtree_end(i);
    tree.find_first(pat, i + 1, end)
}

/// The depth of the children of node `i`.
pub fn child_depth(tree: &SyntaxTree, i: usize) -> (d: usize)
    requires
        tree.wf(),
        i < tree.nodes().len(),
    ensures
        d == tree.nodes()[i as int].depth + 1,
{
    let n = tree.len();
    proof {
        lemma_depth_bound(tree.nodes(), i as int);
    }
    tree.node(i).depth + 1
}

/// The name that node `i` defines: the text of its first child that is an identifier.
pub open spec fn identifier_of(tree: &SyntaxTree, i: int) -> Option<Seq<char>> {
    match first_below(tree.nodes(), i, child_of_kind(tree.nodes(), i, NodeKind::Identifier)) {
        Some(k) => Some(tree.text_of(k)),
        None => None,
    }
}

/// The name of the class or function that node `i` defines.
pub fn extract_identifier(tree: &SyntaxTree, i: usize) -> (r: Option<String>)
    requires
        tree.wf(),
        i < tree.nodes().len(),
    ensures
        text_opt(r) == identifier_of(tree, i as int),
{
    let pat = Pattern::of_kind_at(NodeKind::Identifier, child_depth(tree, i));
    match find_below(tree, i, pat) {
        Some(k) => Some(tree.text(k)),
        None => None,
    }
}

/// The parameter list of the function that node `i` defines: the text of its
/// first child that is one, as it stands between the round bracket that opens
/// the list and the one that closes it.
pub open spec fn parameters_of(tree: &SyntaxTree, i: int) -> Option<Seq<char>> {
    match first_below(tree.nodes(), i, child_of_kind(tree.nodes(), i, NodeKind::Parameters)) {
        Some(k) => Some(without_brackets(tree.text_of(k))),
        None => None,
    }
}

/// `s` stripped of the characters of `set` at both ends.
pub fn trimmed(s: &str, set: CharSet) -> (out: String)
    ensures
        out@ == trim(s@, set),
{
    let chars = to_chars(s);
    assert(chars@.subrange(0, chars@.len() as int) == s@);
    let (a, b) = trim_range(&chars, 0, chars.len(), set);
    from_chars(&chars, a, b)
}

/// The parameter list of the function that node `i` defines.
pub fn extract_parameters(tree: &SyntaxTree, i: usize) -> (r: Option<String>)
    requires
        tree.wf(),
        i < tree.nodes().len(),
    ensures
        text_opt(r) == parameters_of(tree, i as int),
{
    let pat = Pattern::of_kind_at(NodeKind::Parameters, child_depth(tree, i));
    match find_below(tree, i, pat) {
        Some(k) => {
            let text = tree.text(k);
            Some(strip_brackets(text.as_str()))
        },
        None => None,
    }
}

/// The return annotation of the function that node `i` defines: the text of
/// its first child that is one.
pub open spec fn return_type_of(tree: &SyntaxTree, i: int) -> Option<Seq<char>> {
    match first_below(tree.nodes(), i, child_of_role(tree.nodes(), i, FieldRole::ReturnType)) {
        Some(k) => Some(tree.text_of(k)),
        None => None,
    }
}

/// The return annotation of the function that node `i` defines.
pub fn extract_return_type(tree: &SyntaxTree, i: usize) -> (r: Option<String>)
    requires
        tree.wf(),
        i < tree.nodes().len(),
    ensures
        text_opt(r) == return_type_of(tree, i as int),
{
    let pat = Pattern::of_role_at(FieldRole::ReturnType, child_depth(tree, i));
    match find_below(tree, i, pat) {
        Some(k) => Some(tree.text(k)),
        None => None,
    }
}

/// The docstring of the class or function that node `i` defines: the text of
/// the first string literal below it, without the double quotes at its ends.
/// The search takes in the whole subtree, so that a definition without a
/// docstring of its own gets the first literal that its parameters or its body
/// hold.
pub open spec fn docstring_of(tree: &SyntaxTree, i: int) -> Option<Seq<char>> {
    match first_below(tree.nodes(), i, any_of_kind(NodeKind::StringLiteral)) {
        Some(k) => Some(trim(tree.text_of(k), CharSet::Quote)),
        None => None,
    }
}

/// The docstring of the class or function that node `i` defines.
pub fn extract_docstring(tree: &SyntaxTree, i: usize) -> (r: Option<String>)
    requires
        tree.wf(),
        i < tree.nodes().len(),
    ensures
        text_opt(r) == docstring_of(tree, i as int),
{
    let pat = Pattern::of_kind(NodeKind::StringLiteral);
    match find_below(tree, i, pat) {
        Some(k) => {
            let text = tree.text(k);
            Some(trimmed(text.as_str(), CharSet::Quote))
        },
        None => None,
    }
}

/// The name by which a class's constructor is known.
pub open spec fn constructor_name() -> Seq<char> {
    "__init__"@
}

/// The attributes that the function definition at node `f` gives its class:
/// those of its parameter list where it is the constructor, none where it is not.
pub open spec fn constructor_attributes(tree: &SyntaxTree, f: int) -> Seq<Seq<char>> {
    if identifier_of(tree, f) == Some(constructor_name()) {
        match parameters_of(tree, f) {
            Some(params) => attributes_of(params),
            None => Seq::empty(),
        }
    } else {
        Seq::empty()
    }
}

/// The attributes that the function definitions at the nodes `fns` give, in order.
pub open spec fn attributes_over(tree: &SyntaxTree, fns: Seq<int>) -> Seq<Seq<char>>
    decreases fns.len(),
{
    if fns.len() == 0 {
        Seq::empty()
    } else {
        attributes_over(tree, fns.drop_last()) + constructor_attributes(tree, fns.last())
    }
}

/// The function definitions in the subtree of node `i`, the node itself included.
pub open spec fn function_definitions(nodes: Seq<SyntaxNode>, i: int) -> Seq<int> {
    all_matches(nodes, any_of_kind(NodeKind::FunctionDefinition), i, subtree_end(nodes, i))
}

/// The attributes of the class that node `i` defines: what the constructors in
/// its subtree give.
pub open spec fn class_attributes(tree: &SyntaxTree, i: int) -> Seq<Seq<char>> {
    attributes_over(tree, function_definitions(tree.nodes(), i))
}

/// The attributes of the class that node `i` defines, as one text, where it has any.
pub open spec fn attributes_field(tree: &SyntaxTree, i: int) -> Option<Seq<char>> {
    let attributes = class_attributes(tree, i);
    if attributes.len() == 0 {
        None
    } else {
        Some(join(attributes, ", "@))
    }
}

/// The attributes that the function definition at node `f` gives its class.
pub fn extract_constructor_attributes(tree: &SyntaxTree, f: usize) -> (out: Vec<String>)
    requires
        tree.wf(),
        f < tree.nodes().len(),
    ensures
        texts(out@) == constructor_attributes(tree, f as int),
{
    let name = extract_identifier(tree, f);
    let is_constructor = match &name {
        Some(name) => same_text(name.as_str(), "__init__"),
        None => false,
    };
    if is_constructor {
        match extract_parameters(tree, f) {
            Some(params) => classify_attributes(params.as_str()),
            None => {
                let out: Vec<String> = Vec::new();
                assert(texts(out@) =~= Seq::<Seq<char>>::empty());
                out
            },
        }
    } else {
        let out: Vec<String> = Vec::new();
        assert(texts(out@) =~= Seq::<Seq<char>>::empty());
        out
    }
}

/// The attributes of the class that node `i` defines.
pub fn extract_attribute_list(tree: &SyntaxTree, i: usize) -> (out: Vec<String>)
    requires
        tree.wf(),
        i < tree.nodes().len(),
    ensures
        texts(out@) == class_attributes(tree, i as int),
{
    let end = tree.subtree_end(i);
    let fns = tree.find_all(Pattern::of_kind(NodeKind::FunctionDefinition), i, end);
    let ghost all = function_definitions(tree.nodes(), i as int);
    proof {
        lemma_all_matches(
            tree.nodes(),
            any_of_kind(NodeKind::FunctionDefinition),
            i as int,
            end as int,
        );
    }
    let mut out: Vec<String> = Vec::new();
    let mut k: usize = 0;
    assert(texts(out@) =~= attributes_over(tree, all.take(0)));
    while k < fns.len()
        invariant
            tree.wf(),
            k <= fns@.len() == all.len(),
            forall|j: int| 0 <= j < fns@.len() ==> (#[trigger] fns@[j]) == all[j],
            forall|j: int| 0 <= j < all.len() ==> 0 <= (#[trigger] all[j]) < tree.nodes().len(),
            texts(out@) == attributes_over(tree, all.take(k as int)),
        decreases fns@.len() - k,
    {
        let f = fns[k];
        assert(all[k as int] == f);
        let mut more = extract_constructor_attributes(tree, f);
        proof {
            assert(all.take(k + 1).drop_last() == all.take(k as int));
            assert(texts(out@ + more@) =~= texts(out@) + texts(more@));
        }
        out.append(&mut more);
        k += 1;
    }
    assert(all.take(k as int) == all);
    out
}

/// The attributes of the class that node `i` defines, as one text, where it has any.
pub fn extract_attributes(tree: &SyntaxTree, i: usize) -> (r: Option<String>)
    requires
        tree.wf(),
        i < tree.nodes().len(),
    ensures
        text_opt(r) == attributes_field(tree, i as int),
{
    let attributes = extract_attribute_list(tree, i);
    assert(texts(attributes@).len() == attributes@.len());
    if attributes.len() == 0 {
        None
    } else {
        Some(join_texts(&attributes, ", "))
    }
}

/// The name that the call at node `c` invokes, where that is a plain identifier.
pub open spec fn callee_of(tree: &SyntaxTree, c: int) -> Option<Seq<char>> {
    match first_below(tree.nodes(), c, child_of_role(tree.nodes(), c, FieldRole::Callee)) {
        Some(k) => if tree.nodes()[k].kind == NodeKind::Identifier {
            Some(tree.text_of(k))
        } else {
            None
        },
        None => None,
    }
}

/// The calls in the subtree of node `i`, the node itself included.
pub open spec fn calls_in(nodes: Seq<SyntaxNode>, i: int) -> Seq<int> {
    all_matches(nodes, any_of_kind(NodeKind::Call), i, subtree_end(nodes, i))
}

/// The names that the calls at the nodes `calls` invoke, in order.
pub open spec fn callees_over(tree: &SyntaxTree, calls: Seq<int>) -> Seq<Seq<char>>
    decreases calls.len(),
{
    if calls.len() == 0 {
        Seq::empty()
    } else {
        let before = callees_over(tree, calls.drop_last());
        match callee_of(tree, calls.last()) {
            Some(name) => before.push(name),
            None => before,
        }
    }
}

/// The names of the functions that the function at node `i` calls: what the
/// calls in its subtree invoke by a plain identifier, each name once.
pub open spec fn dependencies_of(tree: &SyntaxTree, i: int) -> Seq<Seq<char>> {
    distinct(callees_over(tree, calls_in(tree.nodes(), i)))
}

/// The name that the call at node `c` invokes, where that is a plain identifier.
pub fn extract_callee(tree: &SyntaxTree, c: usize) -> (r: Option<String>)
    requires
        tree.wf(),
        c < tree.nodes().len(),
    ensures
        text_opt(r) == callee_of(tree, c as int),
{
    let pat = Pattern::of_role_at(FieldRole::Callee, child_depth(tree, c));
    match find_below(tree, c, pat) {
        Some(k) => {
            if tree.node(k).kind == NodeKind::Identifier {
                Some(tree.text(k))
            } else {
                None
            }
        },
        None => None,
    }
}

/// The names of the functions that the function at node `i` calls, each once,
/// in the order in which they are first called. A name is looked up among those
/// found by comparing texts, as vstd gives `String` no model as a key of a hash
/// set.
pub fn extract_dependencies(tree: &SyntaxTree, i: usize) -> (out: Vec<String>)
    requires
        tree.wf(),
        i < tree.nodes().len(),
    ensures
        texts(out@) == dependencies_of(tree, i as int),
        texts(out@).no_duplicates(),
{
    let end = tree.subtree_end(i);
    let calls = tree.find_all(Pattern::of_kind(NodeKind::Call), i, end);
    let ghost all = calls_in(tree.nodes(), i as int);
    proof {
        lemma_all_matches(tree.nodes(), any_of_kind(NodeKind::Call), i as int, end as int);
    }
    let mut out: Vec<String> = Vec::new();
    let mut k: usize = 0;
    assert(texts(out@) =~= distinct(callees_over(tree, all.take(0))));
    while k < calls.len()
        invariant
            tree.wf(),
            k <= calls@.len() == all.len(),
            forall|j: int| 0 <= j < calls@.len() ==> (#[trigger] calls@[j]) == all[j],
            forall|j: int| 0 <= j < all.len() ==> 0 <= (#[trigger] all[j]) < tree.nodes().len(),
            texts(out@) == distinct(callees_over(tree, all.take(k as int))),
        decreases calls@.len() - k,
    {
        let c = calls[k];
        assert(all[k as int] == c);
        let ghost before = callees_over(tree, all.take(k as int));
        assert(all.take(k + 1).drop_last() == all.take(k as int));
        match extract_callee(tree, c) {
            Some(name) => {
                assert(before.push(name@).drop_last() == before);
                if !holds_text(&out, name.as_str()) {
                    assert(texts(out@.push(name)) =~= texts(out@).push(name@));
                    out.push(name);
                }
            },
            None => {},
        }
        k += 1;
    }
    proof {
        assert(all.take(k as int) == all);
        lemma_distinct(callees_over(tree, all));
    }
    out
}

/// The name written for a definition that has none.
pub open spec fn unknown_name() -> Seq<char> {
    "<unknown>"@
}

/// The name of the class or function that node `i` defines.
pub open spec fn name_of(tree: &SyntaxTree, i: int) -> Seq<char> {
    match identifier_of(tree, i) {
        Some(name) => name,
        None => unknown_name(),
    }
}

/// The name of the class or function that node `i` defines.
pub fn extract_name(tree: &SyntaxTree, i: usize) -> (name: String)
    requires
        tree.wf(),
        i < tree.nodes().len(),
    ensures
        name@ == name_of(tree, i as int),
{
    match extract_identifier(tree, i) {
        Some(name) => name,
        None => "<unknown>".to_owned(),
    }
}

/// What the method at node `f` adds to the summary of its class: its name, and
/// behind it an arrow and its return annotation where it has one.
pub open spec fn method_entry(tree: &SyntaxTree, f: int) -> Seq<char> {
    match return_type_of(tree, f) {
        Some(ty) => name_of(tree, f) + " -> "@ + ty,
        None => name_of(tree, f),
    }
}

/// What the function definitions at the nodes `fns` add to the summary of their
/// class: an entry for each but the constructors.
pub open spec fn methods_over(tree: &SyntaxTree, fns: Seq<int>) -> Seq<Seq<char>>
    decreases fns.len(),
{
    if fns.len() == 0 {
        Seq::empty()
    } else {
        let before = methods_over(tree, fns.drop_last());
        if identifier_of(tree, fns.last()) == Some(constructor_name()) {
            before
        } else {
            before.push(method_entry(tree, fns.last()))
        }
    }
}

/// The methods of the class that node `i` defines.
pub open spec fn class_methods(tree: &SyntaxTree, i: int) -> Seq<Seq<char>> {
    methods_over(tree, function_definitions(tree.nodes(), i))
}

/// The methods of the class that node `i` defines: each function definition in
/// its subtree but the constructors, by name and return annotation.
pub fn extract_methods(tree: &SyntaxTree, i: usize) -> (out: Vec<String>)
    requires
        tree.wf(),
        i < tree.nodes().len(),
    ensures
        texts(out@) == class_methods(tree, i as int),
{
    let end = tree.subtree_end(i);
    let fns = tree.find_all(Pattern::of_kind(NodeKind::FunctionDefinition), i, end);
    let ghost all = function_definitions(tree.nodes(), i as int);
    proof {
        lemma_all_matches(
            tree.nodes(),
            any_of_kind(NodeKind::FunctionDefinition),
            i as int,
            end as int,
        );
    }
    let mut out: Vec<String> = Vec::new();
    let mut k: usize = 0;
    assert(texts(out@) =~= methods_over(tree, all.take(0)));
    while k < fns.len()
        invariant
            tree.wf(),
            k <= fns@.len() == all.len(),
            forall|j: int| 0 <= j < fns@.len() ==> (#[trigger] fns@[j]) == all[j],
            forall|j: int| 0 <= j < all.len() ==> 0 <= (#[trigger] all[j]) < tree.nodes().len(),
            texts(out@) == methods_over(tree, all.take(k as int)),
        decreases fns@.len() - k,
    {
        let f = fns[k];
        assert(all[k as int] == f);
        assert(all.take(k + 1).drop_last() == all.take(k as int));
        let id = extract_identifier(tree, f);
        let is_constructor = match &id {
            Some(name) => same_text(name.as_str(), "__init__"),
            None => false,
        };
        if !is_constructor {
            let mut entry = extract_name(tree, f);
            match extract_return_type(tree, f) {
                Some(ty) => {
                    entry.append(" -> ");
                    entry.append(ty.as_str());
                },
                None => {},
            }
            assert(texts(out@.push(entry)) =~= texts(out@).push(entry@));
            out.push(entry);
        }
        k += 1;
    }
    assert(all.take(k as int) == all);
    out
}

/// The record of the class that node `i` defines in the file `file` of the
/// repository `repo_id`.
pub open spec fn class_record(tree: &SyntaxTree, i: int, repo_id: i32, file: Seq<char>) -> ClassView {
    ClassView {
        id: None,
        repo_id,
        name: name_of(tree, i),
        attributes: attributes_field(tree, i),
        file_location: file,
        start_line: tree.nodes()[i].start_line,
        end_line: tree.nodes()[i].end_line,
        docstring: docstring_of(tree, i),
    }
}

/// The record of the class that node `i` defines.
pub fn create_class_struct(tree: &SyntaxTree, i: usize, repo_id: i32, file_path: &str) -> (class:
    Class)
    requires
        tree.wf(),
        i < tree.nodes().len(),
    ensures
        class@ == class_record(tree, i as int, repo_id, file_path@),
        0 <= class.start_line <= class.end_line,
{
    let node = tree.node(i);
    Class {
        id: None,
        repo_id,
        name: extract_name(tree, i),
        attributes: extract_attributes(tree, i),
        file_location: file_path.to_owned(),
        start_line: node.start_line,
        end_line: node.end_line,
        docstring: extract_docstring(tree, i),
    }
}

/// The record of the function that node `i` defines in the file `file` of the
/// repository `repo_id`, as a method of the class `class_id` where one is given.
pub open spec fn function_record(
    tree: &SyntaxTree,
    i: int,
    repo_id: i32,
    class_id: Option<i32>,
    file: Seq<char>,
) -> FunctionView {
    FunctionView {
        id: None,
        repo_id,
        class_id,
        name: name_of(tree, i),
        parameters: parameters_of(tree, i),
        return_type: return_type_of(tree, i),
        file_location: file,
        start_line: tree.nodes()[i].start_line,
        end_line: tree.nodes()[i].end_line,
        docstring: docstring_of(tree, i),
    }
}

/// The record of the function that node `i` defines.
pub fn create_function_struct(
    tree: &SyntaxTree,
    i: usize,
    repo_id: i32,
    class_id: Option<i32>,
    file_path: &str,
) -> (function: Function)
    requires
        tree.wf(),
        i < tree.nodes().len(),
    ensures
        function@ == function_record(tree, i as int, repo_id, class_id, file_path@),
        0 <= function.start_line <= function.end_line,
{
    let node = tree.node(i);
    Function {
        id: None,
        repo_id,
        class_id,
        name: extract_name(tree, i),
        parameters: extract_parameters(tree, i),
        return_type: extract_return_type(tree, i),
        file_location: file_path.to_owned(),
        start_line: node.start_line,
        end_line: node.end_line,
        docstring: extract_docstring(tree, i),
    }
}

/// The child of the root in whose subtree node `j` lies.
pub open spec fn owner(nodes: Seq<SyntaxNode>, j: int) -> int
    decreases j,
{
    if j <= 0 {
        0
    } else if nodes[j].depth == 1 {
        j
    } else {
        owner(nodes, j - 1)
    }
}

/// Whether node `j` is a class definition that the index records: one that is
/// a child of the root.
pub open spec fn is_recorded_class(nodes: Seq<SyntaxNode>, j: int) -> bool {
    j >= 1 && nodes[j].depth == 1 && nodes[j].kind == NodeKind::ClassDefinition
}

/// Whether node `j` is a function definition that the index records: one in the
/// subtree of a class or function definition that is a child of the root.
pub open spec fn is_recorded_function(nodes: Seq<SyntaxNode>, j: int) -> bool {
    &&& j >= 1
    &&& nodes[j].kind == NodeKind::FunctionDefinition
    &&& (nodes[owner(nodes, j)].kind == NodeKind::ClassDefinition || nodes[owner(nodes, j)].kind
        == NodeKind::FunctionDefinition)
}

/// The class that a function definition at node `j` is a method of, while
/// `store` holds the classes recorded before that node: the last of them where
/// the node lies in the subtree of a recorded class, none where it does not.
pub open spec fn class_at(store: StoreView, nodes: Seq<SyntaxNode>, j: int) -> Option<i32> {
    if nodes[owner(nodes, j)].kind == NodeKind::ClassDefinition {
        Some(store.classes.len() as i32)
    } else {
        None
    }
}

/// The store after node `j` of a file was indexed: with the class that the node
/// defines, or with the function that it defines and the dependencies of that
/// function, where the index records it.
pub open spec fn index_node(
    store: StoreView,
    tree: &SyntaxTree,
    repo_id: i32,
    file: Seq<char>,
    j: int,
) -> StoreView {
    if is_recorded_class(tree.nodes(), j) {
        store.with_class(class_record(tree, j, repo_id, file))
    } else if is_recorded_function(tree.nodes(), j) {
        let class_id = class_at(store, tree.nodes(), j);
        store.with_function(function_record(tree, j, repo_id, class_id, file)).with_dependencies(
            name_of(tree, j),
            class_id,
            dependencies_of(tree, j),
        )
    } else {
        store
    }
}

/// The store after the nodes before `j` of a file were indexed.
pub open spec fn indexed(
    store: StoreView,
    tree: &SyntaxTree,
    repo_id: i32,
    file: Seq<char>,
    j: int,
) -> StoreView
    decreases j,
{
    if j <= 1 {
        store
    } else {
        index_node(indexed(store, tree, repo_id, file, j - 1), tree, repo_id, file, j - 1)
    }
}

/// Whether `store` takes what node `j` of a file adds to the index.
pub open spec fn node_accepted(
    store: StoreView,
    tree: &SyntaxTree,
    repo_id: i32,
    file: Seq<char>,
    j: int,
) -> bool {
    if is_recorded_class(tree.nodes(), j) {
        store.accepts_class(class_record(tree, j, repo_id, file))
    } else if is_recorded_function(tree.nodes(), j) {
        store.accepts_function(
            function_record(tree, j, repo_id, class_at(store, tree.nodes(), j), file),
        )
    } else {
        true
    }
}

/// Whether `store` takes what each node before `j` of a file adds to the index.
pub open spec fn indexable(
    store: StoreView,
    tree: &SyntaxTree,
    repo_id: i32,
    file: Seq<char>,
    j: int,
) -> bool {
    forall|n: int|
        1 <= n < j ==> #[trigger] node_accepted(
            indexed(store, tree, repo_id, file, n),
            tree,
            repo_id,
            file,
            n,
        )
}

/// Whether the dependencies `after` hold exactly one row behind those of
/// `before` that names the callee `callee`, and that row is a dependency of the
/// function `function_name` of the class `class_id`.
pub open spec fn one_new_edge(
    before: Seq<DependencyEdgeView>,
    after: Seq<DependencyEdgeView>,
    function_name: Seq<char>,
    class_id: Option<i32>,
    callee: Seq<char>,
) -> bool {
    exists|r: int|
        {
            &&& before.len() <= r < after.len()
            &&& #[trigger] after[r] == (DependencyEdgeView {
                function_name,
                dependency: callee,
                class_id,
            })
            &&& forall|q: int|
                before.len() <= q < after.len() && q != r ==> (#[trigger] after[q]).dependency
                    != callee
        }
}

/// However often a function calls a callee by its name, recording the
/// function adds exactly one dependency on that callee to the store.
pub proof fn lemma_one_edge_per_callee(
    store: StoreView,
    tree: &SyntaxTree,
    i: int,
    class_id: Option<i32>,
    callee: Seq<char>,
)
    requires
        callees_over(tree, calls_in(tree.nodes(), i)).contains(callee),
    ensures
        one_new_edge(
            store.dependencies,
            store.with_dependencies(
                name_of(tree, i),
                class_id,
                dependencies_of(tree, i),
            ).dependencies,
            name_of(tree, i),
            class_id,
            callee,
        ),
{
    let names = dependencies_of(tree, i);
    lemma_distinct(callees_over(tree, calls_in(tree.nodes(), i)));
    assert(names.contains(callee));
    let k = choose|k: int| 0 <= k < names.len() && names[k] == callee;
    let added = store.with_dependencies(name_of(tree, i), class_id, names).dependencies;
    let r = store.dependencies.len() + k;
    assert(added[r] == (DependencyEdgeView {
        function_name: name_of(tree, i),
        dependency: callee,
        class_id,
    }));
    assert forall|q: int| store.dependencies.len() <= q < added.len() && q != r implies (
    #[trigger] added[q]).dependency != callee by {
        let l = q - store.dependencies.len();
        assert(added[q].dependency == names[l]);
        assert(l != k);
    }
}

/// Records the function that node `i` defines, as a method of the class
/// `class_id` where one is given, with its dependencies: one for each callee
/// that it calls by a plain name, however often it calls it. Where the store
/// refuses the function, nothing is recorded.
pub fn process_function_definition(
    tree: &SyntaxTree,
    i: usize,
    store: &mut Store,
    repo_id: i32,
    class_id: Option<i32>,
    file_path: &str,
) -> (r: Result<(), IndexError>)
    requires
        tree.wf(),
        i < tree.nodes().len(),
        old(store).wf(),
    ensures
        final(store).wf(),
        match r {
            Ok(()) => {
                &&& old(store)@.accepts_function(
                    function_record(tree, i as int, repo_id, class_id, file_path@),
                )
                &&& final(store)@ == old(store)@.with_function(
                    function_record(tree, i as int, repo_id, class_id, file_path@),
                ).with_dependencies(name_of(tree, i as int), class_id, dependencies_of(tree, i as int))
                &&& forall|callee: Seq<char>|
                    #[trigger] callees_over(tree, calls_in(tree.nodes(), i as int)).contains(callee)
                        ==> one_new_edge(
                        old(store)@.dependencies,
                        final(store)@.dependencies,
                        name_of(tree, i as int),
                        class_id,
                        callee,
                    )
            },
            Err(e) => {
                &&& e == IndexError::StoreFailure
                &&& !old(store)@.accepts_function(
                    function_record(tree, i as int, repo_id, class_id, file_path@),
                )
                &&& final(store)@ == old(store)@
            },
        },
{
    let function = create_function_struct(tree, i, repo_id, class_id, file_path);
    match insert_function(store, &function) {
        Ok(()) => {},
        Err(e) => {
            return Err(e);
        },
    }
    let dependencies = extract_dependencies(tree, i);
    match insert_dependencies(store, function.name.as_str(), class_id, &dependencies) {
        Ok(()) => {
            proof {
                let taken = old(store)@.with_function(
                    function_record(tree, i as int, repo_id, class_id, file_path@),
                );
                assert forall|callee: Seq<char>| #[trigger] callees_over(
                    tree,
                    calls_in(tree.nodes(), i as int),
                ).contains(callee) implies one_new_edge(
                    old(store)@.dependencies,
                    store@.dependencies,
                    name_of(tree, i as int),
                    class_id,
                    callee,
                ) by {
                    lemma_one_edge_per_callee(taken, tree, i as int, class_id, callee);
                }
            }
            Ok(())
        },
        Err(e) => {
            proof {
                assert(false);
            }
            Err(e)
        },
    }
}

/// Records the classes and functions that a file defines, and what the
/// functions call, in `store`, for the repository `repo_id`.
///
/// A class definition is recorded where it is a child of the root. A function
/// definition is recorded where it lies in the subtree of a class definition or
/// of a function definition that is a child of the root: in the first case as a
/// method of that class, in the second as a function of no class. So a helper
/// that is defined inside a function is recorded like a function of the module,
/// and one inside a method like a method. The store may refuse a row; nothing
/// is recorded from that node on.
pub fn extract_classes_and_functions(
    tree: &SyntaxTree,
    store: &mut Store,
    repo_id: i32,
    file_path: &str,
) -> (r: Result<(), IndexError>)
    requires
        tree.wf(),
        old(store).wf(),
    ensures
        final(store).wf(),
        match r {
            Ok(()) => {
                &&& indexable(old(store)@, tree, repo_id, file_path@, tree.nodes().len() as int)
                &&& final(store)@ == indexed(
                    old(store)@,
                    tree,
                    repo_id,
                    file_path@,
                    tree.nodes().len() as int,
                )
            },
            Err(e) => {
                &&& e == IndexError::StoreFailure
                &&& exists|n: int|
                    {
                        &&& 1 <= n < tree.nodes().len()
                        &&& indexable(old(store)@, tree, repo_id, file_path@, n)
                        &&& !#[trigger] node_accepted(
                            indexed(old(store)@, tree, repo_id, file_path@, n),
                            tree,
                            repo_id,
                            file_path@,
                            n,
                        )
                        &&& final(store)@ == indexed(old(store)@, tree, repo_id, file_path@, n)
                    }
            },
        },
{
    let n = tree.len();
    let mut j: usize = 1;
    let mut class_id: Option<i32> = None;
    let mut recording: bool = false;
    while j < n
        invariant
            tree.wf(),
            store.wf(),
            n == tree.nodes().len(),
            1 <= j <= n,
            indexable(old(store)@, tree, repo_id, file_path@, j as int),
            store@ == indexed(old(store)@, tree, repo_id, file_path@, j as int),
            j > 1 ==> class_id == class_at(store@, tree.nodes(), j - 1),
            j > 1 ==> recording == (tree.nodes()[owner(tree.nodes(), j - 1)].kind
                == NodeKind::ClassDefinition || tree.nodes()[owner(tree.nodes(), j - 1)].kind
                == NodeKind::FunctionDefinition),
        decreases n - j,
    {
        let node = tree.node(j);
        let ghost before = store@;
        proof {
            if j == 1 {
                assert(nests(tree.nodes(), 1));
            }
        }
        if node.depth == 1 {
            class_id = None;
            recording = node.kind == NodeKind::ClassDefinition || node.kind
                == NodeKind::FunctionDefinition;
        }
        if node.depth == 1 && node.kind == NodeKind::ClassDefinition {
            let class = create_class_struct(tree, j, repo_id, file_path);
            match insert_class(store, &class) {
                Ok(()) => {
                    class_id = Some(store.last_insert_id());
                },
                Err(e) => {
                    assert(!node_accepted(before, tree, repo_id, file_path@, j as int));
                    return Err(e);
                },
            }
        } else if recording && node.kind == NodeKind::FunctionDefinition {
            match process_function_definition(tree, j, store, repo_id, class_id, file_path) {
                Ok(()) => {},
                Err(e) => {
                    assert(!node_accepted(before, tree, repo_id, file_path@, j as int));
                    return Err(e);
                },
            }
        }
        proof {
            assert(store@ == index_node(before, tree, repo_id, file_path@, j as int));
            assert(node_accepted(before, tree, repo_id, file_path@, j as int));
        }
        j += 1;
    }
    Ok(())
}

/// The number of class definitions before node `j` that the index records.
pub open spec fn recorded_classes(nodes: Seq<SyntaxNode>, j: int) -> nat
    decreases j,
{
    if j <= 1 {
        0
    } else if is_recorded_class(nodes, j - 1) {
        recorded_classes(nodes, j - 1) + 1
    } else {
        recorded_classes(nodes, j - 1)
    }
}

/// The number of function definitions before node `j` that the index records.
pub open spec fn recorded_functions(nodes: Seq<SyntaxNode>, j: int) -> nat
    decreases j,
{
    if j <= 1 {
        0
    } else if is_recorded_function(nodes, j - 1) {
        recorded_functions(nodes, j - 1) + 1
    } else {
        recorded_functions(nodes, j - 1)
    }
}

/// What holds of the store `now` that indexing the nodes before `j` of a file
/// made of the store `before`.
pub open spec fn index_grows(
    before: StoreView,
    now: StoreView,
    nodes: Seq<SyntaxNode>,
    repo_id: i32,
    file: Seq<char>,
    j: int,
) -> bool {
    &&& now.repositories == before.repositories
    &&& now.classes.len() == before.classes.len() + recorded_classes(nodes, j)
    &&& now.functions.len() == before.functions.len() + recorded_functions(nodes, j)
    &&& recorded_classes(nodes, j) < j
    &&& recorded_functions(nodes, j) < j
    &&& now.classes.len() <= i32::MAX
    &&& forall|c: int| 0 <= c < before.classes.len() ==> #[trigger] now.classes[c] == before.classes[c]
    &&& forall|k: int|
        0 <= k < before.functions.len() ==> #[trigger] now.functions[k] == before.functions[k]
    &&& forall|c: int|
        before.classes.len() <= c < now.classes.len() ==> {
            &&& (#[trigger] now.classes[c]).file_location == file
            &&& now.classes[c].repo_id == repo_id
        }
    &&& forall|k: int|
        before.functions.len() <= k < now.functions.len() ==> {
            &&& (#[trigger] now.functions[k]).file_location == file
            &&& now.functions[k].repo_id == repo_id
            &&& now.functions[k].class_id matches Some(c) ==> before.classes.len() < c
                <= now.classes.len()
        }
    &&& j > 1 && nodes[owner(nodes, j - 1)].kind == NodeKind::ClassDefinition ==> recorded_classes(
        nodes,
        j,
    ) >= 1
}

/// Indexing a file leaves the rows that the store held, and adds rows of that
/// file and repository only; each method that it adds belongs to a class that it
/// added.
pub proof fn lemma_index_grows(
    store: StoreView,
    tree: &SyntaxTree,
    repo_id: i32,
    file: Seq<char>,
    j: int,
)
    requires
        store.wf(),
        tree.wf(),
        1 <= j <= tree.nodes().len(),
        indexable(store, tree, repo_id, file, j),
    ensures
        index_grows(store, indexed(store, tree, repo_id, file, j), tree.nodes(), repo_id, file, j),
        indexed(store, tree, repo_id, file, j).wf(),
    decreases j,
{
    let nodes = tree.nodes();
    if j > 1 {
        let n = j - 1;
        lemma_index_grows(store, tree, repo_id, file, n);
        let s = indexed(store, tree, repo_id, file, n);
        let now = indexed(store, tree, repo_id, file, j);
        assert(now == index_node(s, tree, repo_id, file, n));
        assert(node_accepted(s, tree, repo_id, file, n));
        if n == 1 {
            assert(nests(nodes, 1));
        }
        if is_recorded_class(nodes, n) {
            lemma_with_class(s, class_record(tree, n, repo_id, file));
        } else if is_recorded_function(nodes, n) {
            let class_id = class_at(s, nodes, n);
            let row = function_record(tree, n, repo_id, class_id, file);
            lemma_with_function(s, row);
            lemma_with_dependencies(
                s.with_function(row),
                name_of(tree, n),
                class_id,
                dependencies_of(tree, n),
            );
            assert(now.functions == s.functions.push(
                FunctionView { id: Some((s.functions.len() + 1) as i32), ..row },
            ));
            if nodes[owner(nodes, n)].kind == NodeKind::ClassDefinition {
                assert(nodes[n].depth != 1);
                assert(owner(nodes, n) == owner(nodes, n - 1));
            }
        }
    }
}

/// A store that holds the repository takes every row of a file, unless its
/// tables run out of ids.
pub proof fn lemma_indexable(
    store: StoreView,
    tree: &SyntaxTree,
    repo_id: i32,
    file: Seq<char>,
    j: int,
)
    requires
        store.wf(),
        tree.wf(),
        1 <= j <= tree.nodes().len(),
        store.has_repository(repo_id),
        store.classes.len() + tree.nodes().len() <= i32::MAX,
        store.functions.len() + tree.nodes().len() <= i32::MAX,
    ensures
        indexable(store, tree, repo_id, file, j),
    decreases j,
{
    if j > 1 {
        let n = j - 1;
        let nodes = tree.nodes();
        lemma_indexable(store, tree, repo_id, file, n);
        lemma_index_grows(store, tree, repo_id, file, n);
        let s = indexed(store, tree, repo_id, file, n);
        if is_recorded_function(nodes, n) && nodes[owner(nodes, n)].kind
            == NodeKind::ClassDefinition && !is_recorded_class(nodes, n) {
            assert(nodes[n].depth != 1);
            assert(owner(nodes, n) == owner(nodes, n - 1));
            if n == 1 {
                assert(nests(nodes, 1));
            }
        }
        assert(node_accepted(s, tree, repo_id, file, n));
    }
}

/// Where every class definition of a tree is a child of the root, and every
/// function definition lies in the subtree of a class or function definition
/// that is one, the index records each of them.
pub proof fn lemma_recorded_counts(nodes: Seq<SyntaxNode>, j: int)
    requires
        1 <= j <= nodes.len(),
        forall|n: int|
            0 <= n < nodes.len() && (#[trigger] nodes[n]).kind == NodeKind::ClassDefinition
                ==> is_recorded_class(nodes, n),
        forall|n: int|
            0 <= n < nodes.len() && (#[trigger] nodes[n]).kind == NodeKind::FunctionDefinition
                ==> is_recorded_function(nodes, n),
    ensures
        recorded_classes(nodes, j) == all_matches(
            nodes,
            any_of_kind(NodeKind::ClassDefinition),
            0,
            j,
        ).len(),
        recorded_functions(nodes, j) == all_matches(
            nodes,
            any_of_kind(NodeKind::FunctionDefinition),
            0,
            j,
        ).len(),
    decreases j,
{
    if j > 1 {
        lemma_recorded_counts(nodes, j - 1);
        assert(nodes[j - 1].kind == NodeKind::ClassDefinition <==> is_recorded_class(nodes, j - 1));
        assert(nodes[j - 1].kind == NodeKind::FunctionDefinition <==> is_recorded_function(
            nodes,
            j - 1,
        ));
    } else {
        reveal_with_fuel(all_matches, 2);
        assert(nodes[0].kind == NodeKind::ClassDefinition ==> is_recorded_class(nodes, 0));
        assert(nodes[0].kind == NodeKind::FunctionDefinition ==> is_recorded_function(nodes, 0));
    }
}

/// After a file was indexed, the store holds one more class for each class
/// definition of the file, and one more function for each of its function
/// definitions, where every class definition of the file is a child of the
/// root and every function definition lies in the subtree of a class or
/// function definition that is one.
pub proof fn lemma_one_row_per_definition(
    store: StoreView,
    tree: &SyntaxTree,
    repo_id: i32,
    file: Seq<char>,
)
    requires
        store.wf(),
        tree.wf(),
        indexable(store, tree, repo_id, file, tree.nodes().len() as int),
        forall|n: int|
            0 <= n < tree.nodes().len() && (#[trigger] tree.nodes()[n]).kind
                == NodeKind::ClassDefinition ==> is_recorded_class(tree.nodes(), n),
        forall|n: int|
            0 <= n < tree.nodes().len() && (#[trigger] tree.nodes()[n]).kind
                == NodeKind::FunctionDefinition ==> is_recorded_function(tree.nodes(), n),
    ensures
        ({
            let end = tree.nodes().len() as int;
            let now = indexed(store, tree, repo_id, file, end);
            &&& now.classes.len() == store.classes.len() + all_matches(
                tree.nodes(),
                any_of_kind(NodeKind::ClassDefinition),
                0,
                end,
            ).len()
            &&& now.functions.len() == store.functions.len() + all_matches(
                tree.nodes(),
                any_of_kind(NodeKind::FunctionDefinition),
                0,
                end,
            ).len()
        }),
{
    let end = tree.nodes().len() as int;
    lemma_index_grows(store, tree, repo_id, file, end);
    lemma_recorded_counts(tree.nodes(), end);
}

/// After two files were indexed one after the other, no two classes of the
/// store have the same id, and each method that came from one of the files
/// belongs to a class that came from the same file.
pub proof fn lemma_methods_keep_their_class(
    store: StoreView,
    first: &SyntaxTree,
    first_file: Seq<char>,
    second: &SyntaxTree,
    second_file: Seq<char>,
    repo_id: i32,
)
    requires
        store.wf(),
        first.wf(),
        second.wf(),
        indexable(store, first, repo_id, first_file, first.nodes().len() as int),
        indexable(
            indexed(store, first, repo_id, first_file, first.nodes().len() as int),
            second,
            repo_id,
            second_file,
            second.nodes().len() as int,
        ),
    ensures
        ({
            let mid = indexed(store, first, repo_id, first_file, first.nodes().len() as int);
            let end = indexed(mid, second, repo_id, second_file, second.nodes().len() as int);
            &&& forall|c: int, d: int|
                0 <= c < d < end.classes.len() ==> (#[trigger] end.classes[c]).id != (
                #[trigger] end.classes[d]).id
            &&& forall|k: int|
                store.functions.len() <= k < end.functions.len() ==> ((
                #[trigger] end.functions[k]).class_id matches Some(c) ==> {
                    &&& store.classes.len() < c <= end.classes.len()
                    &&& end.classes[c - 1].id == Some(c)
                    &&& end.classes[c - 1].file_location == end.functions[k].file_location
                })
            &&& forall|k: int|
                store.functions.len() <= k < mid.functions.len() ==> (#[trigger] end.functions[k])
                    == mid.functions[k] && mid.functions[k].file_location == first_file
            &&& forall|k: int|
                mid.functions.len() <= k < end.functions.len() ==> (#[trigger] end.functions[k]).file_location
                    == second_file
        }),
{
    let mid = indexed(store, first, repo_id, first_file, first.nodes().len() as int);
    let end = indexed(mid, second, repo_id, second_file, second.nodes().len() as int);
    lemma_index_grows(store, first, repo_id, first_file, first.nodes().len() as int);
    lemma_index_grows(mid, second, repo_id, second_file, second.nodes().len() as int);
    assert forall|k: int| store.functions.len() <= k < end.functions.len() implies ((
    #[trigger] end.functions[k]).class_id matches Some(c) ==> {
        &&& store.classes.len() < c <= end.classes.len()
        &&& end.classes[c - 1].id == Some(c)
        &&& end.classes[c - 1].file_location == end.functions[k].file_location
    }) by {
        if k < mid.functions.len() {
            assert(end.functions[k] == mid.functions[k]);
            if let Some(c) = mid.functions[k].class_id {
                assert(end.classes[c - 1] == mid.classes[c - 1]);
            }
        }
    }
}

/// A source file: where it lies, and its text, or `None` where it could not
/// be read.
#[derive(Debug)]
pub struct SourceFile {
    pub path: String,
    pub code: Option<String>,
}

/// A source file, as contracts see it.
pub struct SourceFileView {
    pub path: Seq<char>,
    pub code: Option<Seq<char>>,
}

impl View for SourceFile {
    type V = SourceFileView;

    open spec fn view(&self) -> SourceFileView {
        SourceFileView { path: self.path@, code: text_opt(self.code) }
    }
}

/// The views of the files `files`.
pub open spec fn file_views(files: Seq<SourceFile>) -> Seq<SourceFileView> {
    Seq::new(files.len(), |k: int| files[k]@)
}

/// Whether `tree` is the syntax tree of the text `code`.
pub open spec fn is_tree_of(tree: SyntaxTree, code: Seq<char>) -> bool {
    &&& parses(code)
    &&& tree.wf()
    &&& tree.source() == code
    &&& tree.nodes() == nodes_of(parsed_nodes(code)->0)
}

/// Whether `after` is the store `before` with what the file `file` with the
/// text `code` defines.
pub open spec fn file_indexed(
    before: StoreView,
    after: StoreView,
    code: Seq<char>,
    repo_id: i32,
    file: Seq<char>,
) -> bool {
    exists|tree: SyntaxTree|
        {
            &&& #[trigger] is_tree_of(tree, code)
            &&& indexable(before, &tree, repo_id, file, tree.nodes().len() as int)
            &&& after == indexed(before, &tree, repo_id, file, tree.nodes().len() as int)
        }
}

/// Whether `after` is the store `before` with what the file `file` with the
/// text `code` defines before a node whose row the store refuses.
pub open spec fn file_refused(
    before: StoreView,
    after: StoreView,
    code: Seq<char>,
    repo_id: i32,
    file: Seq<char>,
) -> bool {
    exists|tree: SyntaxTree, n: int|
        {
            &&& #[trigger] is_tree_of(tree, code)
            &&& 1 <= n < tree.nodes().len()
            &&& indexable(before, &tree, repo_id, file, n)
            &&& !#[trigger] node_accepted(
                indexed(before, &tree, repo_id, file, n),
                &tree,
                repo_id,
                file,
                n,
            )
            &&& after == indexed(before, &tree, repo_id, file, n)
        }
}

/// Records what the file `file_path` with the text `code` defines in `store`,
/// for the repository `repo_id`. A text that has no syntax tree leaves the
/// store as it is.
pub fn parse_file(code: &str, store: &mut Store, repo_id: i32, file_path: &str) -> (r: Result<
    (),
    IndexError,
>)
    requires
        old(store).wf(),
    ensures
        final(store).wf(),
        match r {
            Ok(()) => file_indexed(old(store)@, final(store)@, code@, repo_id, file_path@),
            Err(e) => {
                ||| e == IndexError::ParseFailure && !parses(code@) && final(store)@ == old(
                    store,
                )@
                ||| e == IndexError::StoreFailure && file_refused(
                    old(store)@,
                    final(store)@,
                    code@,
                    repo_id,
                    file_path@,
                )
            },
        },
{
    let tree = match parse_source(code) {
        Ok(tree) => tree,
        Err(e) => {
            return Err(e);
        },
    };
    assert(is_tree_of(tree, code@));
    extract_classes_and_functions(&tree, store, repo_id, file_path)
}

/// Whether the file at `path` is a source file of the language that the
/// index reads: its extension is `py`.
pub open spec fn is_source_path(path: Seq<char>) -> bool {
    extension_of(path) == Some("py"@)
}

/// Whether `after` is the store `before` after one file, with the outcome
/// `outcome`. A file that is no source file is passed over, with the outcome
/// `Ok(false)`. A source file that could not be read, or whose text has no
/// syntax tree, leaves the store as it is too, and its outcome says which of the
/// two failed. Any other file is indexed, with the outcome `Ok(true)`.
pub open spec fn file_step(
    before: StoreView,
    after: StoreView,
    file: SourceFileView,
    repo_id: i32,
    outcome: Result<bool, IndexError>,
) -> bool {
    if !is_source_path(file.path) {
        outcome == Ok::<bool, IndexError>(false) && after == before
    } else {
        match file.code {
            None => outcome == Err::<bool, IndexError>(IndexError::IoFailure) && after == before,
            Some(code) => if parses(code) {
                outcome == Ok::<bool, IndexError>(true) && file_indexed(
                    before,
                    after,
                    code,
                    repo_id,
                    file.path,
                )
            } else {
                outcome == Err::<bool, IndexError>(IndexError::ParseFailure) && after == before
            },
        }
    }
}

/// Whether each of `stores` but the first is the one before it after the next
/// of `files`, with the next of `outcomes`.
pub open spec fn stores_follow(
    stores: Seq<StoreView>,
    files: Seq<SourceFileView>,
    repo_id: i32,
    outcomes: Seq<Result<bool, IndexError>>,
) -> bool {
    &&& stores.len() == outcomes.len() + 1
    &&& outcomes.len() <= files.len()
    &&& forall|k: int|
        0 <= k < outcomes.len() ==> #[trigger] file_step(
            stores[k],
            stores[k + 1],
            files[k],
            repo_id,
            outcomes[k],
        )
}

/// Whether `after` is the store `before` with what the first files of `files`
/// define, as many as `outcomes` is long: one after the other, each file is
/// indexed or passed over, as `file_step` says.
pub open spec fn repository_indexed(
    before: StoreView,
    after: StoreView,
    files: Seq<SourceFileView>,
    repo_id: i32,
    outcomes: Seq<Result<bool, IndexError>>,
) -> bool {
    exists|stores: Seq<StoreView>|
        {
            &&& #[trigger] stores_follow(stores, files, repo_id, outcomes)
            &&& stores[0] == before
            &&& stores.last() == after
        }
}

/// Whether `after` is the store `before` with what some of the first files of
/// `files` define, and with what the next file defines before a node whose row
/// the store refuses.
pub open spec fn repository_refused(
    before: StoreView,
    after: StoreView,
    files: Seq<SourceFileView>,
    repo_id: i32,
) -> bool {
    exists|mid: StoreView, outcomes: Seq<Result<bool, IndexError>>|
        {
            &&& outcomes.len() < files.len()
            &&& #[trigger] repository_indexed(before, mid, files, repo_id, outcomes)
            &&& is_source_path(files[outcomes.len() as int].path)
            &&& files[outcomes.len() as int].code matches Some(code) && file_refused(
                mid,
                after,
                code,
                repo_id,
                files[outcomes.len() as int].path,
            )
        }
}

/// Records what the source files among `files` define in `store`, for the
/// repository `repo_id`. A file that is no source file, that could not be read,
/// or whose text has no syntax tree, is passed over, and the files behind it are
/// indexed all the same; the result says of each file whether it was indexed, or
/// what failed. A row that the store refuses ends the run.
pub fn parse_repository(files: &Vec<SourceFile>, store: &mut Store, repo_id: i32) -> (r: Result<
    Vec<Result<bool, IndexError>>,
    IndexError,
>)
    requires
        old(store).wf(),
    ensures
        final(store).wf(),
        match r {
            Ok(outcomes) => {
                &&& outcomes@.len() == files@.len()
                &&& repository_indexed(
                    old(store)@,
                    final(store)@,
                    file_views(files@),
                    repo_id,
                    outcomes@,
                )
                &&& repository_grows(
                    old(store)@,
                    final(store)@,
                    file_views(files@),
                    repo_id,
                    outcomes@,
                    files@.len() as int,
                )
            },
            Err(e) => {
                &&& e == IndexError::StoreFailure
                &&& repository_refused(
                    old(store)@,
                    final(store)@,
                    file_views(files@),
                    repo_id,
                )
            },
        },
{
    let mut outcomes: Vec<Result<bool, IndexError>> = Vec::new();
    let mut k: usize = 0;
    let ghost stores: Seq<StoreView> = seq![store@];
    while k < files.len()
        invariant
            k <= files@.len(),
            outcomes@.len() == k,
            store.wf(),
            stores_follow(stores, file_views(files@), repo_id, outcomes@),
            stores[0] == old(store)@,
            stores.last() == store@,
        decreases files@.len() - k,
    {
        let file = &files[k];
        let ghost mid = store@;
        let ghost done = outcomes@;
        assert(file_views(files@)[k as int] == file@);
        let is_source = is_source_file(file.path.as_str());
        match &file.code {
            None => {
                if is_source {
                    outcomes.push(Err(IndexError::IoFailure));
                } else {
                    outcomes.push(Ok(false));
                }
            },
            Some(code) => if !is_source {
                outcomes.push(Ok(false));
            } else {
                match parse_file(code.as_str(), store, repo_id, file.path.as_str()) {
                    Ok(()) => {
                        outcomes.push(Ok(true));
                    },
                    Err(e) => {
                        match e {
                            IndexError::StoreFailure => {
                                assert(repository_indexed(
                                    old(store)@,
                                    mid,
                                    file_views(files@),
                                    repo_id,
                                    done,
                                ));
                                return Err(IndexError::StoreFailure);
                            },
                            _ => {
                                outcomes.push(Err(IndexError::ParseFailure));
                            },
                        }
                    },
                }
            },
        }
        proof {
            let more = stores.push(store@);
            assert forall|j: int| 0 <= j < outcomes@.len() implies #[trigger] file_step(
                more[j],
                more[j + 1],
                file_views(files@)[j],
                repo_id,
                outcomes@[j],
            ) by {
                if j < k {
                    assert(file_step(
                        stores[j],
                        stores[j + 1],
                        file_views(files@)[j],
                        repo_id,
                        done[j],
                    ));
                }
            }
            stores = more;
        }
        k += 1;
    }
    proof {
        lemma_repository_grows(old(store)@, store@, file_views(files@), repo_id, outcomes@);
    }
    Ok(outcomes)
}

/// The extension of the file name at the end of `path`: what stands behind
/// the last dot of what stands behind the last slash. A name without a dot, or
/// with its only dot in front, has none.
pub open spec fn extension_of(path: Seq<char>) -> Option<Seq<char>> {
    let name = path.skip(last_index(path, '/') + 1);
    let dot = last_index(name, '.');
    if dot <= 0 {
        None
    } else {
        Some(name.skip(dot + 1))
    }
}

/// Whether the file at `path` is a source file of the language that the
/// index reads.
pub fn is_source_file(path: &str) -> (r: bool)
    ensures
        r == is_source_path(path@),
{
    let chars = to_chars(path);
    let n = chars.len();
    let start = match find_last(&chars, 0, '/') {
        Some(i) => i + 1,
        None => 0,
    };
    assert(chars@.skip(0) == chars@);
    let ghost name = chars@.skip(start as int);
    match find_last(&chars, start, '.') {
        Some(dot) => {
            if dot == 0 {
                false
            } else {
                let ext = from_chars(&chars, start + dot + 1, n);
                assert(ext@ == name.skip(dot + 1));
                same_text(ext.as_str(), "py")
            }
        },
        None => false,
    }
}


/// Whether the class that node `n` of a file defines has its row in `now`,
/// where the rows of the file start at `first`: the row stands behind those of
/// the class definitions before it, and is the record of the node under the id
/// of its place.
pub open spec fn class_row_is_record(
    first: int,
    now: StoreView,
    tree: &SyntaxTree,
    repo_id: i32,
    file: Seq<char>,
    n: int,
) -> bool {
    let c = first + recorded_classes(tree.nodes(), n);
    &&& 0 <= c < now.classes.len()
    &&& now.classes[c] == (ClassView {
        id: Some((c + 1) as i32),
        ..class_record(tree, n, repo_id, file)
    })
}

/// Whether the function that node `n` of a file defines has its row in `now`,
/// where the class rows of the file start at `first_class` and its function
/// rows at `first`: the row stands behind those of the function definitions
/// before it, and is the record of the node under the id of its place, as a
/// method of the last class recorded before it where it lies in the subtree of
/// one.
pub open spec fn function_row_is_record(
    first_class: int,
    first: int,
    now: StoreView,
    tree: &SyntaxTree,
    repo_id: i32,
    file: Seq<char>,
    n: int,
) -> bool {
    let nodes = tree.nodes();
    let f = first + recorded_functions(nodes, n);
    let class_id = if nodes[owner(nodes, n)].kind == NodeKind::ClassDefinition {
        Some((first_class + recorded_classes(nodes, n)) as i32)
    } else {
        None
    };
    &&& 0 <= f < now.functions.len()
    &&& now.functions[f] == (FunctionView {
        id: Some((f + 1) as i32),
        ..function_record(tree, n, repo_id, class_id, file)
    })
}

/// Whether the rows of `now` from `first_class` and `first_function` on are the
/// records of the definitions before node `j` of a file that the index records,
/// in their order.
pub open spec fn rows_are_records(
    first_class: int,
    first_function: int,
    now: StoreView,
    tree: &SyntaxTree,
    repo_id: i32,
    file: Seq<char>,
    j: int,
) -> bool {
    &&& forall|n: int|
        1 <= n < j && is_recorded_class(tree.nodes(), n) ==> #[trigger] class_row_is_record(
            first_class,
            now,
            tree,
            repo_id,
            file,
            n,
        )
    &&& forall|n: int|
        1 <= n < j && is_recorded_function(tree.nodes(), n)
            ==> #[trigger] function_row_is_record(
            first_class,
            first_function,
            now,
            tree,
            repo_id,
            file,
            n,
        )
}

/// The rows that indexing a file adds are the records of its definitions, in
/// their order.
pub proof fn lemma_rows_are_records(
    store: StoreView,
    tree: &SyntaxTree,
    repo_id: i32,
    file: Seq<char>,
    j: int,
)
    requires
        store.wf(),
        tree.wf(),
        1 <= j <= tree.nodes().len(),
        indexable(store, tree, repo_id, file, j),
    ensures
        rows_are_records(
            store.classes.len() as int,
            store.functions.len() as int,
            indexed(store, tree, repo_id, file, j),
            tree,
            repo_id,
            file,
            j,
        ),
    decreases j,
{
    let nodes = tree.nodes();
    let first_class = store.classes.len() as int;
    let first_function = store.functions.len() as int;
    if j > 1 {
        let m = j - 1;
        lemma_rows_are_records(store, tree, repo_id, file, m);
        lemma_index_grows(store, tree, repo_id, file, m);
        lemma_index_grows(store, tree, repo_id, file, j);
        let s = indexed(store, tree, repo_id, file, m);
        let now = indexed(store, tree, repo_id, file, j);
        assert(now == index_node(s, tree, repo_id, file, m));
        assert(node_accepted(s, tree, repo_id, file, m));
        assert forall|n: int| 1 <= n < j && is_recorded_class(nodes, n) implies #[trigger] class_row_is_record(
            first_class,
            now,
            tree,
            repo_id,
            file,
            n,
        ) by {
            if n < m {
                assert(class_row_is_record(first_class, s, tree, repo_id, file, n));
                let c = first_class + recorded_classes(nodes, n);
                assert(now.classes[c] == s.classes[c]);
            }
        }
        assert forall|n: int| 1 <= n < j && is_recorded_function(nodes, n) implies #[trigger] function_row_is_record(
            first_class,
            first_function,
            now,
            tree,
            repo_id,
            file,
            n,
        ) by {
            if n < m {
                assert(function_row_is_record(
                    first_class,
                    first_function,
                    s,
                    tree,
                    repo_id,
                    file,
                    n,
                ));
                let f = first_function + recorded_functions(nodes, n);
                assert(now.functions[f] == s.functions[f]);
            } else {
                let class_id = class_at(s, nodes, m);
                let row = function_record(tree, m, repo_id, class_id, file);
                assert(now.functions == s.functions.push(
                    FunctionView { id: Some((s.functions.len() + 1) as i32), ..row },
                ));
            }
        }
    }
}

/// The nodes of the syntax tree of the text `code`.
pub open spec fn nodes_in(code: Seq<char>) -> Seq<SyntaxNode> {
    nodes_of(parsed_nodes(code)->0)
}

/// The number of class definitions of a tree that the index records.
pub open spec fn classes_recorded(nodes: Seq<SyntaxNode>) -> nat {
    recorded_classes(nodes, nodes.len() as int)
}

/// The number of function definitions of a tree that the index records.
pub open spec fn functions_recorded(nodes: Seq<SyntaxNode>) -> nat {
    recorded_functions(nodes, nodes.len() as int)
}

/// The number of class definitions of a tree.
pub open spec fn classes_defined(nodes: Seq<SyntaxNode>) -> nat {
    all_matches(nodes, any_of_kind(NodeKind::ClassDefinition), 0, nodes.len() as int).len()
}

/// The number of function definitions of a tree.
pub open spec fn functions_defined(nodes: Seq<SyntaxNode>) -> nat {
    all_matches(nodes, any_of_kind(NodeKind::FunctionDefinition), 0, nodes.len() as int).len()
}

/// What is counted in the files of a repository.
pub enum Counted {
    /// The class definitions that the index records.
    ClassesRecorded,
    /// The function definitions that the index records.
    FunctionsRecorded,
    /// The class definitions.
    ClassesDefined,
    /// The function definitions.
    FunctionsDefined,
}

/// The number of what `what` names in a tree.
pub open spec fn count_in(what: Counted, nodes: Seq<SyntaxNode>) -> nat {
    match what {
        Counted::ClassesRecorded => classes_recorded(nodes),
        Counted::FunctionsRecorded => functions_recorded(nodes),
        Counted::ClassesDefined => classes_defined(nodes),
        Counted::FunctionsDefined => functions_defined(nodes),
    }
}

/// The number of what `what` names in those of the first `k` of `files` that
/// were indexed.
pub open spec fn rows_added(
    files: Seq<SourceFileView>,
    outcomes: Seq<Result<bool, IndexError>>,
    what: Counted,
    k: int,
) -> nat
    decreases k,
{
    if k <= 0 {
        0
    } else if outcomes[k - 1] == Ok::<bool, IndexError>(true) {
        rows_added(files, outcomes, what, k - 1) + count_in(
            what,
            nodes_in(files[k - 1].code->0),
        )
    } else {
        rows_added(files, outcomes, what, k - 1)
    }
}

/// Whether the index records every definition of a tree: each class
/// definition is a child of the root, and each function definition lies in the
/// subtree of a class or function definition that is one.
pub open spec fn records_all(nodes: Seq<SyntaxNode>) -> bool {
    &&& nodes.len() >= 1
    &&& forall|n: int|
        0 <= n < nodes.len() && (#[trigger] nodes[n]).kind == NodeKind::ClassDefinition
            ==> is_recorded_class(nodes, n)
    &&& forall|n: int|
        0 <= n < nodes.len() && (#[trigger] nodes[n]).kind == NodeKind::FunctionDefinition
            ==> is_recorded_function(nodes, n)
}

/// Whether the rows that file `j` of a repository added to `now`, where it was
/// indexed, are the records of the definitions of its syntax tree that the
/// index records, in their order, behind the rows of the files before it.
pub open spec fn file_rows_are_records(
    before: StoreView,
    now: StoreView,
    files: Seq<SourceFileView>,
    repo_id: i32,
    outcomes: Seq<Result<bool, IndexError>>,
    j: int,
) -> bool {
    outcomes[j] == Ok::<bool, IndexError>(true) ==> exists|tree: SyntaxTree|
        {
            &&& #[trigger] is_tree_of(tree, files[j].code->0)
            &&& rows_are_records(
                (before.classes.len() + rows_added(files, outcomes, Counted::ClassesRecorded, j)) as int,
                (before.functions.len() + rows_added(
                    files,
                    outcomes,
                    Counted::FunctionsRecorded,
                    j,
                )) as int,
                now,
                &tree,
                repo_id,
                files[j].path,
                tree.nodes().len() as int,
            )
        }
}

/// What holds of the store `now` that indexing the first `k` of the files of a
/// repository made of the store `before`. The rows that the store held are as
/// they were. Each file that was indexed has added one class for each class
/// definition that the index records, and one function for each such function
/// definition. Each row that was added belongs to the repository and lies in a
/// source file, and each method that was added belongs to a class that was added
/// from the same file. The rows that a file added are the records of its
/// definitions.
pub open spec fn repository_grows(
    before: StoreView,
    now: StoreView,
    files: Seq<SourceFileView>,
    repo_id: i32,
    outcomes: Seq<Result<bool, IndexError>>,
    k: int,
) -> bool {
    &&& now.wf()
    &&& now.repositories == before.repositories
    &&& now.classes.len() == before.classes.len() + rows_added(
        files,
        outcomes,
        Counted::ClassesRecorded,
        k,
    )
    &&& now.functions.len() == before.functions.len() + rows_added(
        files,
        outcomes,
        Counted::FunctionsRecorded,
        k,
    )
    &&& forall|c: int| 0 <= c < before.classes.len() ==> #[trigger] now.classes[c] == before.classes[c]
    &&& forall|f: int|
        0 <= f < before.functions.len() ==> #[trigger] now.functions[f] == before.functions[f]
    &&& forall|c: int|
        before.classes.len() <= c < now.classes.len() ==> {
            &&& (#[trigger] now.classes[c]).repo_id == repo_id
            &&& is_source_path(now.classes[c].file_location)
        }
    &&& forall|f: int|
        before.functions.len() <= f < now.functions.len() ==> {
            &&& (#[trigger] now.functions[f]).repo_id == repo_id
            &&& is_source_path(now.functions[f].file_location)
            &&& now.functions[f].class_id matches Some(c) ==> {
                &&& before.classes.len() < c <= now.classes.len()
                &&& now.classes[c - 1].file_location == now.functions[f].file_location
            }
        }
    &&& forall|j: int|
        0 <= j < k ==> #[trigger] file_rows_are_records(before, now, files, repo_id, outcomes, j)
}

/// Rows that are the records of a file's definitions stay so while the store
/// keeps its rows.
proof fn lemma_records_stay(
    first_class: int,
    first_function: int,
    prev: StoreView,
    now: StoreView,
    tree: &SyntaxTree,
    repo_id: i32,
    file: Seq<char>,
    j: int,
)
    requires
        rows_are_records(first_class, first_function, prev, tree, repo_id, file, j),
        prev.classes.len() <= now.classes.len(),
        prev.functions.len() <= now.functions.len(),
        forall|c: int| 0 <= c < prev.classes.len() ==> #[trigger] now.classes[c] == prev.classes[c],
        forall|f: int|
            0 <= f < prev.functions.len() ==> #[trigger] now.functions[f] == prev.functions[f],
    ensures
        rows_are_records(first_class, first_function, now, tree, repo_id, file, j),
{
    let nodes = tree.nodes();
    assert forall|n: int| 1 <= n < j && is_recorded_class(nodes, n) implies #[trigger] class_row_is_record(
        first_class,
        now,
        tree,
        repo_id,
        file,
        n,
    ) by {
        assert(class_row_is_record(first_class, prev, tree, repo_id, file, n));
        let c = first_class + recorded_classes(nodes, n);
        assert(now.classes[c] == prev.classes[c]);
    }
    assert forall|n: int| 1 <= n < j && is_recorded_function(nodes, n) implies #[trigger] function_row_is_record(
        first_class,
        first_function,
        now,
        tree,
        repo_id,
        file,
        n,
    ) by {
        assert(function_row_is_record(first_class, first_function, prev, tree, repo_id, file, n));
        let f = first_function + recorded_functions(nodes, n);
        assert(now.functions[f] == prev.functions[f]);
    }
}

/// One file more keeps what `repository_grows` says.
proof fn lemma_repository_step(
    before: StoreView,
    prev: StoreView,
    now: StoreView,
    files: Seq<SourceFileView>,
    repo_id: i32,
    outcomes: Seq<Result<bool, IndexError>>,
    k: int,
)
    requires
        1 <= k <= outcomes.len() <= files.len(),
        repository_grows(before, prev, files, repo_id, outcomes, k - 1),
        file_step(prev, now, files[k - 1], repo_id, outcomes[k - 1]),
    ensures
        repository_grows(before, now, files, repo_id, outcomes, k),
{
    let file = files[k - 1];
    if outcomes[k - 1] == Ok::<bool, IndexError>(true) {
        let code = file.code->0;
        assert(file_indexed(prev, now, code, repo_id, file.path));
        let tree = choose|tree: SyntaxTree|
            {
                &&& #[trigger] is_tree_of(tree, code)
                &&& indexable(prev, &tree, repo_id, file.path, tree.nodes().len() as int)
                &&& now == indexed(prev, &tree, repo_id, file.path, tree.nodes().len() as int)
            };
        let end = tree.nodes().len() as int;
        lemma_index_grows(prev, &tree, repo_id, file.path, end);
        lemma_rows_are_records(prev, &tree, repo_id, file.path, end);
        assert(tree.nodes() == nodes_in(code));
        assert(index_grows(prev, now, tree.nodes(), repo_id, file.path, end));
        assert(file_rows_are_records(before, now, files, repo_id, outcomes, k - 1));
        assert forall|c: int| 0 <= c < before.classes.len() implies #[trigger] now.classes[c]
            == before.classes[c] by {
            assert(now.classes[c] == prev.classes[c]);
        }
        assert forall|f: int| 0 <= f < before.functions.len() implies #[trigger] now.functions[f]
            == before.functions[f] by {
            assert(now.functions[f] == prev.functions[f]);
        }
        assert forall|c: int| before.classes.len() <= c < now.classes.len() implies {
            &&& (#[trigger] now.classes[c]).repo_id == repo_id
            &&& is_source_path(now.classes[c].file_location)
        } by {
            if c < prev.classes.len() {
                assert(now.classes[c] == prev.classes[c]);
            }
        }
        assert forall|f: int| before.functions.len() <= f < now.functions.len() implies {
            &&& (#[trigger] now.functions[f]).repo_id == repo_id
            &&& is_source_path(now.functions[f].file_location)
            &&& now.functions[f].class_id matches Some(c) ==> {
                &&& before.classes.len() < c <= now.classes.len()
                &&& now.classes[c - 1].file_location == now.functions[f].file_location
            }
        } by {
            if f < prev.functions.len() {
                assert(now.functions[f] == prev.functions[f]);
                if let Some(c) = prev.functions[f].class_id {
                    assert(now.classes[c - 1] == prev.classes[c - 1]);
                }
            } else {
                if let Some(c) = now.functions[f].class_id {
                    assert(now.classes[c - 1].file_location == file.path);
                }
            }
        }
    } else {
        assert(now == prev);
        assert(file_rows_are_records(before, now, files, repo_id, outcomes, k - 1));
    }
    assert forall|j: int| 0 <= j < k - 1 implies #[trigger] file_rows_are_records(
        before,
        now,
        files,
        repo_id,
        outcomes,
        j,
    ) by {
        assert(file_rows_are_records(before, prev, files, repo_id, outcomes, j));
        if outcomes[j] == Ok::<bool, IndexError>(true) {
            let first_class = (before.classes.len() + rows_added(
                files,
                outcomes,
                Counted::ClassesRecorded,
                j,
            )) as int;
            let first_function = (before.functions.len() + rows_added(
                files,
                outcomes,
                Counted::FunctionsRecorded,
                j,
            )) as int;
            let old_tree = choose|old_tree: SyntaxTree|
                {
                    &&& #[trigger] is_tree_of(old_tree, files[j].code->0)
                    &&& rows_are_records(
                        first_class,
                        first_function,
                        prev,
                        &old_tree,
                        repo_id,
                        files[j].path,
                        old_tree.nodes().len() as int,
                    )
                };
            lemma_records_stay(
                first_class,
                first_function,
                prev,
                now,
                &old_tree,
                repo_id,
                files[j].path,
                old_tree.nodes().len() as int,
            );
        }
    }
}

/// What `repository_grows` says holds of each store on the way.
proof fn lemma_stores_grow(
    stores: Seq<StoreView>,
    files: Seq<SourceFileView>,
    repo_id: i32,
    outcomes: Seq<Result<bool, IndexError>>,
    k: int,
)
    requires
        stores[0].wf(),
        stores_follow(stores, files, repo_id, outcomes),
        0 <= k <= outcomes.len(),
    ensures
        repository_grows(stores[0], stores[k], files, repo_id, outcomes, k),
    decreases k,
{
    if k > 0 {
        lemma_stores_grow(stores, files, repo_id, outcomes, k - 1);
        assert(file_step(stores[k - 1], stores[k - 1 + 1], files[k - 1], repo_id, outcomes[k - 1]));
        lemma_repository_step(stores[0], stores[k - 1], stores[k], files, repo_id, outcomes, k);
    }
}

/// After the files of a repository were indexed, the store holds the rows that
/// it held, and for each file that was indexed one more class for each class
/// definition that the index records and one more function for each such
/// function definition. No two classes have the same id, whatever their names
/// and files. Each row that was added lies in a source file of the repository,
/// and each method that was added belongs to a class that was added from the
/// same file.
pub proof fn lemma_repository_grows(
    before: StoreView,
    after: StoreView,
    files: Seq<SourceFileView>,
    repo_id: i32,
    outcomes: Seq<Result<bool, IndexError>>,
)
    requires
        before.wf(),
        repository_indexed(before, after, files, repo_id, outcomes),
    ensures
        repository_grows(before, after, files, repo_id, outcomes, outcomes.len() as int),
        forall|c: int, d: int|
            0 <= c < d < after.classes.len() ==> (#[trigger] after.classes[c]).id != (
            #[trigger] after.classes[d]).id,
{
    let stores = choose|stores: Seq<StoreView>|
        {
            &&& #[trigger] stores_follow(stores, files, repo_id, outcomes)
            &&& stores[0] == before
            &&& stores.last() == after
        };
    lemma_stores_grow(stores, files, repo_id, outcomes, outcomes.len() as int);
}

/// Where the index records every definition of each file that was indexed, the
/// files add as many rows as they hold definitions.
pub proof fn lemma_rows_added(
    files: Seq<SourceFileView>,
    outcomes: Seq<Result<bool, IndexError>>,
    k: int,
)
    requires
        0 <= k <= outcomes.len() <= files.len(),
        forall|j: int|
            0 <= j < outcomes.len() && #[trigger] outcomes[j] == Ok::<bool, IndexError>(true)
                ==> records_all(nodes_in(files[j].code->0)),
    ensures
        rows_added(files, outcomes, Counted::ClassesRecorded, k) == rows_added(
            files,
            outcomes,
            Counted::ClassesDefined,
            k,
        ),
        rows_added(files, outcomes, Counted::FunctionsRecorded, k) == rows_added(
            files,
            outcomes,
            Counted::FunctionsDefined,
            k,
        ),
    decreases k,
{
    if k > 0 {
        lemma_rows_added(files, outcomes, k - 1);
        if outcomes[k - 1] == Ok::<bool, IndexError>(true) {
            let nodes = nodes_in(files[k - 1].code->0);
            assert(records_all(nodes));
            lemma_recorded_counts(nodes, nodes.len() as int);
        }
    }
}

/// After the files of a repository were indexed, the store holds one more
/// class for each class definition of the files that were indexed, and one more
/// function for each of their function definitions, all of them rows of that
/// repository: where every class definition of these files is a child of the
/// root, and every function definition lies in the subtree of a class or
/// function definition that is one.
pub proof fn lemma_one_row_per_definition_of_a_repository(
    before: StoreView,
    after: StoreView,
    files: Seq<SourceFileView>,
    repo_id: i32,
    outcomes: Seq<Result<bool, IndexError>>,
)
    requires
        before.wf(),
        repository_indexed(before, after, files, repo_id, outcomes),
        forall|j: int|
            0 <= j < outcomes.len() && #[trigger] outcomes[j] == Ok::<bool, IndexError>(true)
                ==> records_all(nodes_in(files[j].code->0)),
    ensures
        after.classes.len() == before.classes.len() + rows_added(
            files,
            outcomes,
            Counted::ClassesDefined,
            outcomes.len() as int,
        ),
        after.functions.len() == before.functions.len() + rows_added(
            files,
            outcomes,
            Counted::FunctionsDefined,
            outcomes.len() as int,
        ),
        forall|c: int|
            before.classes.len() <= c < after.classes.len() ==> (#[trigger] after.classes[c]).repo_id
                == repo_id,
        forall|f: int|
            before.functions.len() <= f < after.functions.len() ==> (
            #[trigger] after.functions[f]).repo_id == repo_id,
{
    lemma_repository_grows(before, after, files, repo_id, outcomes);
    lemma_rows_added(files, outcomes, outcomes.len() as int);
}


/// The counts of recorded definitions grow with the nodes.
pub proof fn lemma_recorded_grow(nodes: Seq<SyntaxNode>, n: int, j: int)
    requires
        1 <= n <= j,
    ensures
        recorded_classes(nodes, n) <= recorded_classes(nodes, j),
        recorded_functions(nodes, n) <= recorded_functions(nodes, j),
        n < j && is_recorded_class(nodes, n) ==> recorded_classes(nodes, n) < recorded_classes(
            nodes,
            j,
        ),
        n < j && is_recorded_function(nodes, n) ==> recorded_functions(nodes, n)
            < recorded_functions(nodes, j),
    decreases j - n,
{
    if n < j {
        lemma_recorded_grow(nodes, n, j - 1);
    }
}

/// The files of a repository add rows one after the other.
pub proof fn lemma_rows_added_grow(
    files: Seq<SourceFileView>,
    outcomes: Seq<Result<bool, IndexError>>,
    what: Counted,
    i: int,
    j: int,
)
    requires
        0 <= i <= j,
    ensures
        rows_added(files, outcomes, what, i) <= rows_added(files, outcomes, what, j),
    decreases j - i,
{
    if i < j {
        lemma_rows_added_grow(files, outcomes, what, i, j - 1);
    }
}

/// Whether the class that node `m` of the tree `a` defines and the class that
/// node `n` of the tree `b` defines have rows of their own in `after`, where the
/// class rows of the first file start at `first_a` and those of the second at
/// `first_b`: two rows with different ids, each with the name of its class and
/// the path of its file.
pub open spec fn classes_have_own_rows(
    after: StoreView,
    repo_id: i32,
    a: &SyntaxTree,
    m: int,
    path_a: Seq<char>,
    first_a: int,
    b: &SyntaxTree,
    n: int,
    path_b: Seq<char>,
    first_b: int,
) -> bool {
    let c = first_a + recorded_classes(a.nodes(), m);
    let d = first_b + recorded_classes(b.nodes(), n);
    &&& 0 <= c < d < after.classes.len()
    &&& after.classes[c].id == Some((c + 1) as i32)
    &&& after.classes[d].id == Some((d + 1) as i32)
    &&& after.classes[c].id != after.classes[d].id
    &&& after.classes[c].name == name_of(a, m)
    &&& after.classes[d].name == name_of(b, n)
    &&& after.classes[c].file_location == path_a
    &&& after.classes[d].file_location == path_b
    &&& after.classes[c].repo_id == repo_id
    &&& after.classes[d].repo_id == repo_id
}

/// Whether `a` and `b` are the syntax trees of the files `i` and `j` of a
/// repository, and each class that the one defines and each class that the other
/// defines have rows of their own in `after`, whatever their names.
pub open spec fn files_have_own_classes(
    before: StoreView,
    after: StoreView,
    files: Seq<SourceFileView>,
    repo_id: i32,
    outcomes: Seq<Result<bool, IndexError>>,
    i: int,
    j: int,
    a: SyntaxTree,
    b: SyntaxTree,
) -> bool {
    &&& is_tree_of(a, files[i].code->0)
    &&& is_tree_of(b, files[j].code->0)
    &&& forall|m: int, n: int|
        1 <= m < a.nodes().len() && is_recorded_class(a.nodes(), m) && 1 <= n < b.nodes().len()
            && is_recorded_class(b.nodes(), n) ==> #[trigger] classes_have_own_rows(
            after,
            repo_id,
            &a,
            m,
            files[i].path,
            (before.classes.len() + rows_added(files, outcomes, Counted::ClassesRecorded, i)) as int,
            &b,
            n,
            files[j].path,
            (before.classes.len() + rows_added(files, outcomes, Counted::ClassesRecorded, j)) as int,
        )
}

/// Two files of a repository that were indexed have their classes in rows of
/// their own: a class of the one and a class of the other have different ids,
/// whatever their names, and each row has the name of its class and the path of
/// its file. With `repository_grows`, each method belongs to a class of its
/// own file.
pub proof fn lemma_classes_of_two_files(
    before: StoreView,
    after: StoreView,
    files: Seq<SourceFileView>,
    repo_id: i32,
    outcomes: Seq<Result<bool, IndexError>>,
    i: int,
    j: int,
)
    requires
        before.wf(),
        repository_indexed(before, after, files, repo_id, outcomes),
        0 <= i < j < outcomes.len(),
        outcomes[i] == Ok::<bool, IndexError>(true),
        outcomes[j] == Ok::<bool, IndexError>(true),
    ensures
        exists|a: SyntaxTree, b: SyntaxTree|
            #[trigger] files_have_own_classes(
                before,
                after,
                files,
                repo_id,
                outcomes,
                i,
                j,
                a,
                b,
            ),
{
    lemma_repository_grows(before, after, files, repo_id, outcomes);
    assert(file_rows_are_records(before, after, files, repo_id, outcomes, i));
    assert(file_rows_are_records(before, after, files, repo_id, outcomes, j));
    let first_a = (before.classes.len() + rows_added(
        files,
        outcomes,
        Counted::ClassesRecorded,
        i,
    )) as int;
    let first_b = (before.classes.len() + rows_added(
        files,
        outcomes,
        Counted::ClassesRecorded,
        j,
    )) as int;
    let function_a = (before.functions.len() + rows_added(
        files,
        outcomes,
        Counted::FunctionsRecorded,
        i,
    )) as int;
    let function_b = (before.functions.len() + rows_added(
        files,
        outcomes,
        Counted::FunctionsRecorded,
        j,
    )) as int;
    let a = choose|a: SyntaxTree|
        {
            &&& #[trigger] is_tree_of(a, files[i].code->0)
            &&& rows_are_records(
                first_a,
                function_a,
                after,
                &a,
                repo_id,
                files[i].path,
                a.nodes().len() as int,
            )
        };
    let b = choose|b: SyntaxTree|
        {
            &&& #[trigger] is_tree_of(b, files[j].code->0)
            &&& rows_are_records(
                first_b,
                function_b,
                after,
                &b,
                repo_id,
                files[j].path,
                b.nodes().len() as int,
            )
        };
    lemma_rows_added_grow(files, outcomes, Counted::ClassesRecorded, i + 1, j);
    assert(a.nodes() == nodes_in(files[i].code->0));
    assert forall|m: int, n: int|
        1 <= m < a.nodes().len() && is_recorded_class(a.nodes(), m) && 1 <= n < b.nodes().len()
            && is_recorded_class(b.nodes(), n) implies #[trigger] classes_have_own_rows(
        after,
        repo_id,
        &a,
        m,
        files[i].path,
        first_a,
        &b,
        n,
        files[j].path,
        first_b,
    ) by {
        assert(class_row_is_record(first_a, after, &a, repo_id, files[i].path, m));
        assert(class_row_is_record(first_b, after, &b, repo_id, files[j].path, n));
        lemma_recorded_grow(a.nodes(), m, a.nodes().len() as int);
    }
    assert(files_have_own_classes(before, after, files, repo_id, outcomes, i, j, a, b));
}

} // verus!
