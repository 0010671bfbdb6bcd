use vstd::multiset::Multiset;
use vstd::prelude::*;

use crate::content_guard::{is_recognized, is_recognized_name};
use crate::models::{EntryKind, ExcalidrawFile, FileTreeNode, ScannedEntry};
use crate::order::{
    lemma_lex_asymmetric, lemma_lex_irreflexive, lemma_lex_split, lex_lt, name_less,
};

verus! {

/// The entry is a recognized file, or a directory with one somewhere beneath it.
pub open spec fn holds_recognized(e: ScannedEntry) -> bool
    decreases e, 0int,
{
    match e.kind {
        EntryKind::File => is_recognized(e.name@),
        EntryKind::Directory(ch) => holds_upto(ch@, ch@.len() as int),
        EntryKind::Other => false,
    }
}

/// One of the first `i` entries of `s` holds a recognized file.
pub open spec fn holds_upto(s: Seq<ScannedEntry>, i: int) -> bool
    decreases s, i,
{
    if i <= 0 || i > s.len() {
        false
    } else {
        holds_upto(s, i - 1) || holds_recognized(s[i - 1])
    }
}

/// Name and path of every recognized file under the entry, in pre-order.
pub open spec fn flat_entry(e: ScannedEntry) -> Seq<(Seq<char>, Seq<char>)>
    decreases e, 0int,
{
    match e.kind {
        EntryKind::File => if is_recognized(e.name@) {
            seq![(e.name@, e.path@)]
        } else {
            Seq::empty()
        },
        EntryKind::Directory(ch) => flat_upto(ch@, ch@.len() as int),
        EntryKind::Other => Seq::empty(),
    }
}

/// Name and path of every recognized file under the first `i` entries of `s`,
/// in pre-order.
pub open spec fn flat_upto(s: Seq<ScannedEntry>, i: int) -> Seq<(Seq<char>, Seq<char>)>
    decreases s, i,
{
    if i <= 0 || i > s.len() {
        Seq::empty()
    } else {
        flat_upto(s, i - 1) + flat_entry(s[i - 1])
    }
}

pub open spec fn file_view(f: ExcalidrawFile) -> (Seq<char>, Seq<char>) {
    (f.name@, f.path@)
}

pub open spec fn file_views(s: Seq<ExcalidrawFile>) -> Seq<(Seq<char>, Seq<char>)> {
    s.map_values(|f: ExcalidrawFile| file_view(f))
}

pub open spec fn file_lt(a: ExcalidrawFile, b: ExcalidrawFile) -> bool {
    lex_lt(a.name@, b.name@)
}

/// No file comes after one with a greater name.
pub open spec fn files_sorted(s: Seq<ExcalidrawFile>) -> bool {
    forall|i: int, j: int| 0 <= i < j < s.len() ==> !file_lt(#[trigger] s[j], #[trigger] s[i])
}

/// Directories before files, each group by name.
pub open spec fn node_lt(a: FileTreeNode, b: FileTreeNode) -> bool {
    (a.is_directory && !b.is_directory) || (a.is_directory == b.is_directory && lex_lt(
        a.name@,
        b.name@,
    ))
}

pub open spec fn level_sorted(s: Seq<FileTreeNode>) -> bool {
    forall|i: int, j: int| 0 <= i < j < s.len() ==> !node_lt(#[trigger] s[j], #[trigger] s[i])
}

pub proof fn lemma_node_lt_irreflexive(a: FileTreeNode)
    ensures
        !node_lt(a, a),
{
    lemma_lex_irreflexive(a.name@);
}

pub proof fn lemma_node_lt_asymmetric(a: FileTreeNode, b: FileTreeNode)
    ensures
        node_lt(a, b) ==> !node_lt(b, a),
{
    lemma_lex_asymmetric(a.name@, b.name@);
}

/// If `c` comes before `a`, any `b` comes after `c` or before `a`.
pub proof fn lemma_node_lt_split(a: FileTreeNode, b: FileTreeNode, c: FileTreeNode)
    ensures
        node_lt(c, a) ==> node_lt(c, b) || node_lt(b, a),
{
    lemma_lex_split(a.name@, b.name@, c.name@);
}

/// `n` is the node for the scanned entry `e`, at its own level: same name and
/// path, and a directory exactly when the entry is one.
pub open spec fn shallow_match(n: FileTreeNode, e: ScannedEntry) -> bool {
    &&& n.name@ == e.name@
    &&& n.path@ == e.path@
    &&& !n.modified
    &&& match e.kind {
        EntryKind::File => !n.is_directory,
        EntryKind::Directory(_) => n.is_directory,
        EntryKind::Other => false,
    }
}

/// `n` is the node of one of the first `bound` scanned entries `ents`, one
/// that holds a recognized file.
pub open spec fn from_entry(n: FileTreeNode, ents: Seq<ScannedEntry>, bound: int) -> bool {
    exists|j: int|
        0 <= j < bound && j < ents.len() && holds_recognized(ents[j]) && #[trigger] shallow_match(
            n,
            ents[j],
        )
}

/// One of `nodes` is the node of `e`.
pub open spec fn has_node(nodes: Seq<FileTreeNode>, e: ScannedEntry) -> bool {
    exists|i: int| 0 <= i < nodes.len() && #[trigger] shallow_match(nodes[i], e)
}

/// `nodes` is the sorted level built from the scanned entries `ents`: one node
/// for each entry that holds a recognized file, and nothing else.
pub open spec fn level_matches(nodes: Seq<FileTreeNode>, ents: Seq<ScannedEntry>) -> bool {
    &&& forall|i: int| 0 <= i < nodes.len() ==> from_entry(#[trigger] nodes[i], ents, ents.len() as int)
    &&& forall|j: int| 0 <= j < ents.len() && holds_recognized(#[trigger] ents[j]) ==> has_node(nodes, ents[j])
    &&& level_sorted(nodes)
}

/// The subtree at `n` is well built: a file leaf of the recognized format
/// without children, or a directory whose children are non-empty, sorted and
/// well built in turn.
pub open spec fn node_ok(n: FileTreeNode) -> bool
    decreases n, 0int,
{
    &&& !n.modified
    &&& if n.is_directory {
        match n.children {
            Some(c) => c@.len() > 0 && level_sorted(c@) && nodes_ok_upto(c@, c@.len() as int),
            None => false,
        }
    } else {
        n.children is None && is_recognized(n.name@)
    }
}

/// The first `i` nodes of `s` are well built.
pub open spec fn nodes_ok_upto(s: Seq<FileTreeNode>, i: int) -> bool
    decreases s, i,
{
    if i <= 0 || i > s.len() {
        true
    } else {
        nodes_ok_upto(s, i - 1) && node_ok(s[i - 1])
    }
}

proof fn lemma_nodes_ok_upto(s: Seq<FileTreeNode>, i: int)
    requires
        0 <= i <= s.len(),
    ensures
        nodes_ok_upto(s, i) <==> forall|k: int| 0 <= k < i ==> node_ok(#[trigger] s[k]),
    decreases i,
{
    if i > 0 {
        lemma_nodes_ok_upto(s, i - 1);
    }
}

/// A directory of a built tree has children, at any depth, and they are
/// sorted with directories first, then by name, and well built in turn.
pub proof fn lemma_built_directory(n: FileTreeNode)
    requires
        node_ok(n),
        n.is_directory,
    ensures
        n.children is Some,
        n.children->Some_0@.len() > 0,
        level_sorted(n.children->Some_0@),
        forall|k: int|
            0 <= k < n.children->Some_0@.len() ==> node_ok(#[trigger] n.children->Some_0@[k]),
{
    let c = n.children->Some_0@;
    lemma_nodes_ok_upto(c, c.len() as int);
}

proof fn lemma_holds_upto_exists(s: Seq<ScannedEntry>, i: int)
    requires
        0 <= i <= s.len(),
    ensures
        holds_upto(s, i) <==> exists|j: int| 0 <= j < i && holds_recognized(#[trigger] s[j]),
    decreases i,
{
    if i > 0 {
        lemma_holds_upto_exists(s, i - 1);
        if holds_upto(s, i - 1) {
            let j = choose|j: int| 0 <= j < i - 1 && holds_recognized(#[trigger] s[j]);
            assert(0 <= j < i && holds_recognized(s[j]));
        }
        if holds_recognized(s[i - 1]) {
            assert(0 <= i - 1 < i && holds_recognized(s[i - 1]));
        }
    }
}

/// A built level is non-empty exactly when its scan holds a recognized file.
proof fn lemma_level_nonempty(nodes: Seq<FileTreeNode>, ents: Seq<ScannedEntry>)
    requires
        level_matches(nodes, ents),
    ensures
        nodes.len() > 0 <==> holds_upto(ents, ents.len() as int),
{
    lemma_holds_upto_exists(ents, ents.len() as int);
    if nodes.len() > 0 {
        assert(from_entry(nodes[0], ents, ents.len() as int));
        let j = choose|j: int|
            0 <= j < ents.len() && j < ents.len() && holds_recognized(ents[j]) && #[trigger] shallow_match(
                nodes[0],
                ents[j],
            );
        assert(holds_recognized(ents[j]));
    }
    if holds_upto(ents, ents.len() as int) {
        let j = choose|j: int| 0 <= j < ents.len() && holds_recognized(#[trigger] ents[j]);
        assert(has_node(nodes, ents[j]));
    }
}

proof fn lemma_insert_keeps_level_sorted(out: Seq<FileTreeNode>, x: FileTreeNode, pos: int)
    requires
        level_sorted(out),
        0 <= pos <= out.len(),
        forall|k: int| 0 <= k < pos ==> node_lt(#[trigger] out[k], x),
        pos < out.len() ==> !node_lt(out[pos], x),
    ensures
        level_sorted(out.insert(pos, x)),
{
    let r = out.insert(pos, x);
    out.insert_ensures(pos, x);
    assert forall|i: int, j: int| 0 <= i < j < r.len() implies !node_lt(
        #[trigger] r[j],
        #[trigger] r[i],
    ) by {
        if j < pos {
        } else if j == pos {
            lemma_node_lt_asymmetric(out[i], x);
        } else if i == pos {
            assert(r[j] == out[j - 1]);
            lemma_node_lt_split(x, out[pos], out[j - 1]);
            lemma_node_lt_irreflexive(out[pos]);
        } else if i < pos {
            assert(r[j] == out[j - 1]);
        } else {
            assert(r[j] == out[j - 1]);
            assert(r[i] == out[i - 1]);
        }
    }
}

/// First position whose node does not come before `x`.
fn node_insertion_point(out: &Vec<FileTreeNode>, x: &FileTreeNode) -> (pos: usize)
    ensures
        pos <= out@.len(),
        forall|k: int| 0 <= k < pos ==> node_lt(#[trigger] out@[k], *x),
        pos < out@.len() ==> !node_lt(out@[pos as int], *x),
{
    let mut k: usize = 0;
    while k < out.len()
        invariant
            k <= out@.len(),
            forall|m: int| 0 <= m < k ==> node_lt(#[trigger] out@[m], *x),
        decreases out.len() - k,
    {
        if !node_less(&out[k], x) {
            return k;
        }
        k = k + 1;
    }
    k
}

/// Whether `a` comes before `b`: directories first, then by name.
pub fn node_less(a: &FileTreeNode, b: &FileTreeNode) -> (r: bool)
    ensures
        r == node_lt(*a, *b),
{
    if a.is_directory != b.is_directory {
        a.is_directory
    } else {
        name_less(a.name.as_str(), b.name.as_str())
    }
}

/// Sorts a level: directories first, then files, each group by name.
fn sort_nodes(v: Vec<FileTreeNode>) -> (r: Vec<FileTreeNode>)
    ensures
        level_sorted(r@),
        r@.to_multiset() == v@.to_multiset(),
{
    broadcast use vstd::seq_lib::group_to_multiset_ensures, vstd::multiset::group_multiset_axioms;

    let ghost v0 = v@;
    let mut v = v;
    let mut out: Vec<FileTreeNode> = Vec::new();
    assert(out@.to_multiset().add(v@.to_multiset()) =~= v0.to_multiset());
    while v.len() > 0
        invariant
            level_sorted(out@),
            out@.to_multiset().add(v@.to_multiset()) == v0.to_multiset(),
        decreases v@.len(),
    {
        let ghost before = v@;
        let x = v.pop().unwrap();
        assert(before =~= v@.push(x));
        let pos = node_insertion_point(&out, &x);
        proof {
            lemma_insert_keeps_level_sorted(out@, x, pos as int);
        }
        let ghost old_out = out@;
        out.insert(pos, x);
        proof {
            vstd::seq_lib::to_multiset_insert(old_out, pos as int, x);
            vstd::seq_lib::to_multiset_build(v@, x);
        }
        assert(out@.to_multiset().add(v@.to_multiset()) =~= old_out.to_multiset().add(
            before.to_multiset(),
        ));
    }
    assert(v@.to_multiset() =~= Multiset::<FileTreeNode>::empty());
    assert(out@.to_multiset().add(v@.to_multiset()) =~= out@.to_multiset());
    out
}

/// Index of the first of `s` from `i` on whose path is `p`, or -1.
pub open spec fn find_from(s: Seq<ScannedEntry>, p: Seq<char>, i: int) -> int
    decreases s.len() - i,
{
    if i < 0 || i >= s.len() {
        -1
    } else if s[i].path@ == p {
        i
    } else {
        find_from(s, p, i + 1)
    }
}

/// `n` is the node built from the scanned entry `e`, at every depth: the
/// children of a directory node are the level built from the directory's own
/// scan, each built in turn from its entry.
pub open spec fn built_from(n: FileTreeNode, e: ScannedEntry) -> bool
    decreases e, 0int, 0int,
{
    &&& shallow_match(n, e)
    &&& match e.kind {
        EntryKind::Directory(ch) => match n.children {
            Some(c) => level_matches(c@, ch@) && children_built(c@, ch@, c@.len() as int),
            None => false,
        },
        _ => true,
    }
}

/// Each of the first `i` nodes of `c` is built from the entry of `ch` with
/// its path.
pub open spec fn children_built(c: Seq<FileTreeNode>, ch: Seq<ScannedEntry>, i: int) -> bool
    decreases ch, 1int, i,
{
    if i <= 0 || i > c.len() {
        true
    } else {
        let k = find_from(ch, c[i - 1].path@, 0);
        &&& children_built(c, ch, i - 1)
        &&& 0 <= k < ch.len()
        &&& built_from(c[i - 1], ch[k])
    }
}

/// Sibling paths are distinct at every level of the scan.
pub open spec fn scan_distinct(s: Seq<ScannedEntry>) -> bool
    decreases s, 2int, 0int,
{
    distinct_paths(s) && entries_distinct_upto(s, s.len() as int)
}

pub open spec fn entries_distinct_upto(s: Seq<ScannedEntry>, i: int) -> bool
    decreases s, 1int, i,
{
    if i <= 0 || i > s.len() {
        true
    } else {
        entries_distinct_upto(s, i - 1) && entry_distinct(s[i - 1])
    }
}

pub open spec fn entry_distinct(e: ScannedEntry) -> bool
    decreases e, 0int, 0int,
{
    match e.kind {
        EntryKind::Directory(ch) => scan_distinct(ch@),
        _ => true,
    }
}

proof fn lemma_entries_distinct_upto(s: Seq<ScannedEntry>, i: int)
    requires
        0 <= i <= s.len(),
    ensures
        entries_distinct_upto(s, i) <==> forall|k: int| 0 <= k < i ==> entry_distinct(#[trigger] s[k]),
    decreases i,
{
    if i > 0 {
        lemma_entries_distinct_upto(s, i - 1);
    }
}

proof fn lemma_find_from(s: Seq<ScannedEntry>, j: int, i: int)
    requires
        distinct_paths(s),
        0 <= i <= j < s.len(),
    ensures
        find_from(s, s[j].path@, i) == j,
    decreases j - i,
{
    if i < j {
        assert(s[i].path@ != s[j].path@);
        lemma_find_from(s, j, i + 1);
    }
}

/// Where each node of `c` comes from, stated node by node.
pub open spec fn node_built_in(n: FileTreeNode, ch: Seq<ScannedEntry>) -> bool {
    let k = find_from(ch, n.path@, 0);
    0 <= k < ch.len() && built_from(n, ch[k])
}

proof fn lemma_children_built(c: Seq<FileTreeNode>, ch: Seq<ScannedEntry>, i: int)
    requires
        0 <= i <= c.len(),
    ensures
        children_built(c, ch, i) <==> forall|a: int| 0 <= a < i ==> node_built_in(#[trigger] c[a], ch),
    decreases i,
{
    if i > 0 {
        lemma_children_built(c, ch, i - 1);
    }
}

/// `n` is built from one of the first `bound` entries of `ents`.
pub open spec fn built_among(n: FileTreeNode, ents: Seq<ScannedEntry>, bound: int) -> bool {
    exists|j: int| 0 <= j < bound && j < ents.len() && #[trigger] built_from(n, ents[j])
}

/// Nodes in `sel` are each built from one of the first `i` entries.
#[verifier::opaque]
pub open spec fn deep_upto(sel: Seq<FileTreeNode>, ents: Seq<ScannedEntry>, i: int) -> bool {
    forall|k: int| 0 <= k < sel.len() ==> built_among(#[trigger] sel[k], ents, i)
}

/// Whether the scanned entries hold a recognized file at any depth.
pub fn has_excalidraw_files(entries: &Vec<ScannedEntry>) -> (r: bool)
    ensures
        r == holds_upto(entries@, entries@.len() as int),
    decreases entries@,
{
    let mut i: usize = 0;
    let mut found = false;
    while i < entries.len()
        invariant
            i <= entries.len(),
            found == holds_upto(entries@, i as int),
        decreases entries.len() - i,
    {
        let e = &entries[i];
        let h = match &e.kind {
            EntryKind::File => is_recognized_name(e.name.as_str()),
            EntryKind::Directory(ch) => {
                assert(decreases_to!(entries@ => ch@)) by {
                    assert(decreases_to!(entries@ => entries@[i as int]));
                };
                has_excalidraw_files(ch)
            },
            EntryKind::Other => false,
        };
        assert(h == holds_recognized(entries@[i as int]));
        found = found || h;
        i = i + 1;
    }
    found
}

/// The nodes in `sel` are the nodes of exactly those of
/// the first `i` scanned entries that hold a recognized file.
#[verifier::opaque]
pub open spec fn selected_upto(sel: Seq<FileTreeNode>, ents: Seq<ScannedEntry>, i: int) -> bool {
    &&& forall|k: int| 0 <= k < sel.len() ==> from_entry(#[trigger] sel[k], ents, i)
    &&& forall|j: int| 0 <= j < i && holds_recognized(#[trigger] ents[j]) ==> has_node(sel, ents[j])
}

proof fn lemma_selection_step(
    ents: Seq<ScannedEntry>,
    i: int,
    old_sel: Seq<FileTreeNode>,
    pushed: bool,
    n: FileTreeNode,
)
    requires
        0 <= i < ents.len(),
        selected_upto(old_sel, ents, i),
        pushed ==> shallow_match(n, ents[i]) && holds_recognized(ents[i]),
        !pushed ==> !holds_recognized(ents[i]),
    ensures
        selected_upto(if pushed { old_sel.push(n) } else { old_sel }, ents, i + 1),
{
    reveal(selected_upto);
    let sel = if pushed { old_sel.push(n) } else { old_sel };
    assert forall|k: int| 0 <= k < sel.len() implies from_entry(#[trigger] sel[k], ents, i + 1) by {
        if k < old_sel.len() {
            assert(sel[k] == old_sel[k]);
            assert(from_entry(old_sel[k], ents, i));
            let j = choose|j: int|
                0 <= j < i && j < ents.len() && holds_recognized(ents[j]) && #[trigger] shallow_match(
                    old_sel[k],
                    ents[j],
                );
            assert(shallow_match(sel[k], ents[j]));
        } else {
            assert(shallow_match(sel[k], ents[i]));
        }
    }
    assert forall|j: int| 0 <= j < i + 1 && holds_recognized(#[trigger] ents[j]) implies has_node(
        sel,
        ents[j],
    ) by {
        if j < i {
            assert(has_node(old_sel, ents[j]));
            let k = choose|k: int| 0 <= k < old_sel.len() && #[trigger] shallow_match(old_sel[k], ents[j]);
            assert(sel[k] == old_sel[k]);
            assert(shallow_match(sel[k], ents[j]));
        } else {
            assert(shallow_match(sel[old_sel.len() as int], ents[j]));
        }
    }
}

/// Sorting a complete selection gives the built level.
proof fn lemma_sorted_selection(s0: Seq<FileTreeNode>, r: Seq<FileTreeNode>, ents: Seq<ScannedEntry>)
    requires
        selected_upto(s0, ents, ents.len() as int),
        forall|k: int| 0 <= k < s0.len() ==> node_ok(#[trigger] s0[k]),
        level_sorted(r),
        r.to_multiset() == s0.to_multiset(),
    ensures
        level_matches(r, ents),
        forall|k: int| 0 <= k < r.len() ==> node_ok(#[trigger] r[k]),
{
    broadcast use vstd::seq_lib::group_to_multiset_ensures;

    reveal(selected_upto);
    assert forall|a: int| 0 <= a < r.len() implies node_ok(#[trigger] r[a]) && from_entry(
        r[a],
        ents,
        ents.len() as int,
    ) by {
        let x = r[a];
        assert(r.contains(x));
        assert(r.to_multiset().count(x) > 0);
        assert(s0.contains(x));
        let k = choose|k: int| 0 <= k < s0.len() && s0[k] == x;
        assert(node_ok(s0[k]) && from_entry(s0[k], ents, ents.len() as int));
    }
    assert forall|j: int| 0 <= j < ents.len() && holds_recognized(#[trigger] ents[j]) implies has_node(
        r,
        ents[j],
    ) by {
        assert(has_node(s0, ents[j]));
        let k = choose|k: int| 0 <= k < s0.len() && #[trigger] shallow_match(s0[k], ents[j]);
        let x = s0[k];
        assert(s0.contains(x));
        assert(s0.to_multiset().count(x) > 0);
        assert(r.contains(x));
        let a = choose|a: int| 0 <= a < r.len() && r[a] == x;
        assert(shallow_match(r[a], ents[j]));
    }
}

proof fn lemma_deep_step(
    ents: Seq<ScannedEntry>,
    i: int,
    old_sel: Seq<FileTreeNode>,
    pushed: bool,
    n: FileTreeNode,
)
    requires
        0 <= i < ents.len(),
        deep_upto(old_sel, ents, i),
        pushed ==> built_from(n, ents[i]),
    ensures
        deep_upto(if pushed { old_sel.push(n) } else { old_sel }, ents, i + 1),
{
    reveal(deep_upto);
    let sel = if pushed { old_sel.push(n) } else { old_sel };
    assert forall|k: int| 0 <= k < sel.len() implies built_among(#[trigger] sel[k], ents, i + 1) by {
        if k < old_sel.len() {
            assert(sel[k] == old_sel[k]);
            assert(built_among(old_sel[k], ents, i));
            let j = choose|j: int| 0 <= j < i && j < ents.len() && #[trigger] built_from(old_sel[k], ents[j]);
            assert(built_from(sel[k], ents[j]));
        } else {
            assert(built_from(sel[k], ents[i]));
        }
    }
}

proof fn lemma_deep_sorted(s0: Seq<FileTreeNode>, r: Seq<FileTreeNode>, ents: Seq<ScannedEntry>)
    requires
        deep_upto(s0, ents, ents.len() as int),
        distinct_paths(ents),
        r.to_multiset() == s0.to_multiset(),
    ensures
        children_built(r, ents, r.len() as int),
{
    broadcast use vstd::seq_lib::group_to_multiset_ensures;

    reveal(deep_upto);
    assert forall|a: int| 0 <= a < r.len() implies node_built_in(#[trigger] r[a], ents) by {
        let x = r[a];
        assert(r.contains(x));
        assert(r.to_multiset().count(x) > 0);
        assert(s0.contains(x));
        let k = choose|k: int| 0 <= k < s0.len() && s0[k] == x;
        assert(built_among(s0[k], ents, ents.len() as int));
        let j = choose|j: int| 0 <= j < ents.len() && j < ents.len() && #[trigger] built_from(s0[k], ents[j]);
        assert(built_from(x, ents[j]));
        lemma_find_from(ents, j, 0);
    }
    lemma_children_built(r, ents, r.len() as int);
}

/// Builds the pruned tree of a scanned directory: recognized files, and the
/// directories that hold one at some depth, each level sorted with
/// directories first and then by name.
pub fn get_file_tree(entries: &Vec<ScannedEntry>) -> (r: Vec<FileTreeNode>)
    ensures
        level_matches(r@, entries@),
        forall|k: int| 0 <= k < r@.len() ==> node_ok(#[trigger] r@[k]),
        scan_distinct(entries@) ==> children_built(r@, entries@, r@.len() as int),
    decreases entries@,
{
    let mut sel: Vec<FileTreeNode> = Vec::new();
    let mut i: usize = 0;
    proof {
        reveal(selected_upto);
        reveal(deep_upto);
        if scan_distinct(entries@) {
            lemma_entries_distinct_upto(entries@, entries@.len() as int);
        }
    }
    while i < entries.len()
        invariant
            i <= entries.len(),
            selected_upto(sel@, entries@, i as int),
            scan_distinct(entries@) ==> deep_upto(sel@, entries@, i as int),
            scan_distinct(entries@) ==> forall|k: int|
                0 <= k < entries@.len() ==> entry_distinct(#[trigger] entries@[k]),
            forall|k: int| 0 <= k < sel@.len() ==> node_ok(#[trigger] sel@[k]),
        decreases entries.len() - i,
    {
        let e = &entries[i];
        let ghost old_sel = sel@;
        let ghost ei = entries@[i as int];
        let ghost mut pushed = false;
        let ghost mut pn: FileTreeNode = arbitrary();
        match &e.kind {
            EntryKind::File => {
                if is_recognized_name(e.name.as_str()) {
                    let n = FileTreeNode {
                        name: e.name.clone(),
                        path: e.path.clone(),
                        is_directory: false,
                        modified: false,
                        children: None,
                    };
                    assert(shallow_match(n, ei) && node_ok(n));
                    proof {
                        pushed = true;
                        pn = n;
                    }
                    sel.push(n);
                }
            },
            EntryKind::Directory(ch) => {
                assert(decreases_to!(entries@ => ch@)) by {
                    assert(decreases_to!(entries@ => entries@[i as int]));
                };
                let sub = get_file_tree(ch);
                proof {
                    lemma_level_nonempty(sub@, ch@);
                    lemma_nodes_ok_upto(sub@, sub@.len() as int);
                }
                if sub.len() > 0 {
                    let n = FileTreeNode {
                        name: e.name.clone(),
                        path: e.path.clone(),
                        is_directory: true,
                        modified: false,
                        children: Some(sub),
                    };
                    assert(shallow_match(n, ei) && node_ok(n));
                    assert(scan_distinct(entries@) ==> built_from(n, ei)) by {
                        if scan_distinct(entries@) {
                            assert(entry_distinct(ei));
                        }
                    }
                    proof {
                        pushed = true;
                        pn = n;
                    }
                    sel.push(n);
                }
            },
            EntryKind::Other => {},
        }
        proof {
            lemma_selection_step(entries@, i as int, old_sel, pushed, pn);
            if scan_distinct(entries@) {
                lemma_deep_step(entries@, i as int, old_sel, pushed, pn);
            }
            assert(sel@ == if pushed { old_sel.push(pn) } else { old_sel });
            assert forall|k: int| 0 <= k < sel@.len() implies node_ok(#[trigger] sel@[k]) by {
                if k < old_sel.len() {
                    assert(sel@[k] == old_sel[k]);
                }
            }
        }
        i = i + 1;
    }
    let ghost s0 = sel@;
    let r = sort_nodes(sel);
    proof {
        lemma_sorted_selection(s0, r@, entries@);
        if scan_distinct(entries@) {
            lemma_deep_sorted(s0, r@, entries@);
        }
    }
    r
}

proof fn lemma_insert_keeps_files_sorted(out: Seq<ExcalidrawFile>, x: ExcalidrawFile, pos: int)
    requires
        files_sorted(out),
        0 <= pos <= out.len(),
        forall|k: int| 0 <= k < pos ==> file_lt(#[trigger] out[k], x),
        pos < out.len() ==> !file_lt(out[pos], x),
    ensures
        files_sorted(out.insert(pos, x)),
{
    let r = out.insert(pos, x);
    out.insert_ensures(pos, x);
    assert forall|i: int, j: int| 0 <= i < j < r.len() implies !file_lt(
        #[trigger] r[j],
        #[trigger] r[i],
    ) by {
        if j < pos {
        } else if j == pos {
            lemma_lex_asymmetric(out[i].name@, x.name@);
        } else if i == pos {
            assert(r[j] == out[j - 1]);
            lemma_lex_split(x.name@, out[pos].name@, out[j - 1].name@);
            lemma_lex_irreflexive(out[pos].name@);
        } else if i < pos {
            assert(r[j] == out[j - 1]);
        } else {
            assert(r[j] == out[j - 1]);
            assert(r[i] == out[i - 1]);
        }
    }
}

/// First position whose file does not come before `x`.
fn file_insertion_point(out: &Vec<ExcalidrawFile>, x: &ExcalidrawFile) -> (pos: usize)
    ensures
        pos <= out@.len(),
        forall|k: int| 0 <= k < pos ==> file_lt(#[trigger] out@[k], *x),
        pos < out@.len() ==> !file_lt(out@[pos as int], *x),
{
    let mut k: usize = 0;
    while k < out.len()
        invariant
            k <= out@.len(),
            forall|m: int| 0 <= m < k ==> file_lt(#[trigger] out@[m], *x),
        decreases out.len() - k,
    {
        if !name_less(out[k].name.as_str(), x.name.as_str()) {
            return k;
        }
        k = k + 1;
    }
    k
}

/// Sorts files by name; files of equal name keep their order.
fn sort_files(v: Vec<ExcalidrawFile>) -> (r: Vec<ExcalidrawFile>)
    ensures
        files_sorted(r@),
        r@.to_multiset() == v@.to_multiset(),
{
    broadcast use vstd::seq_lib::group_to_multiset_ensures, vstd::multiset::group_multiset_axioms;

    let ghost v0 = v@;
    let mut v = v;
    let mut out: Vec<ExcalidrawFile> = Vec::new();
    assert(out@.to_multiset().add(v@.to_multiset()) =~= v0.to_multiset());
    while v.len() > 0
        invariant
            files_sorted(out@),
            out@.to_multiset().add(v@.to_multiset()) == v0.to_multiset(),
        decreases v@.len(),
    {
        let ghost before = v@;
        let x = v.pop().unwrap();
        assert(before =~= v@.push(x));
        let pos = file_insertion_point(&out, &x);
        proof {
            lemma_insert_keeps_files_sorted(out@, x, pos as int);
        }
        let ghost old_out = out@;
        out.insert(pos, x);
        proof {
            vstd::seq_lib::to_multiset_insert(old_out, pos as int, x);
            vstd::seq_lib::to_multiset_build(v@, x);
        }
        assert(out@.to_multiset().add(v@.to_multiset()) =~= old_out.to_multiset().add(
            before.to_multiset(),
        ));
    }
    assert(v@.to_multiset() =~= Multiset::<ExcalidrawFile>::empty());
    assert(out@.to_multiset().add(v@.to_multiset()) =~= out@.to_multiset());
    out
}

/// Every recognized file under the scanned entries, in pre-order.
fn collect_excalidraw_files_recursive(entries: &Vec<ScannedEntry>) -> (r: Vec<ExcalidrawFile>)
    ensures
        file_views(r@) == flat_upto(entries@, entries@.len() as int),
        forall|k: int| 0 <= k < r@.len() ==> !(#[trigger] r@[k]).modified,
    decreases entries@,
{
    let mut out: Vec<ExcalidrawFile> = Vec::new();
    let mut i: usize = 0;
    assert(file_views(out@) =~= Seq::<(Seq<char>, Seq<char>)>::empty());
    while i < entries.len()
        invariant
            i <= entries.len(),
            file_views(out@) == flat_upto(entries@, i as int),
            forall|k: int| 0 <= k < out@.len() ==> !(#[trigger] out@[k]).modified,
        decreases entries.len() - i,
    {
        let e = &entries[i];
        let ghost old_out = out@;
        let ghost ei = entries@[i as int];
        match &e.kind {
            EntryKind::File => {
                if is_recognized_name(e.name.as_str()) {
                    let f = ExcalidrawFile {
                        name: e.name.clone(),
                        path: e.path.clone(),
                        modified: false,
                    };
                    out.push(f);
                    assert(file_views(out@) =~= file_views(old_out).push(file_view(f)));
                    assert(flat_entry(ei) =~= seq![file_view(f)]);
                } else {
                    assert(flat_entry(ei) =~= Seq::<(Seq<char>, Seq<char>)>::empty());
                }
            },
            EntryKind::Directory(ch) => {
                assert(decreases_to!(entries@ => ch@)) by {
                    assert(decreases_to!(entries@ => entries@[i as int]));
                };
                let mut sub = collect_excalidraw_files_recursive(ch);
                let ghost sub0 = sub@;
                out.append(&mut sub);
                assert(out@ == old_out + sub0);
                assert(file_views(out@) =~= file_views(old_out) + file_views(sub0));
            },
            EntryKind::Other => {
                assert(flat_entry(ei) =~= Seq::<(Seq<char>, Seq<char>)>::empty());
            },
        }
        assert(flat_upto(entries@, i + 1) == flat_upto(entries@, i as int) + flat_entry(ei));
        assert(file_views(out@) =~= flat_upto(entries@, i + 1));
        assert forall|k: int| 0 <= k < out@.len() implies !(#[trigger] out@[k]).modified by {
            if k < old_out.len() {
                assert(out@[k] == old_out[k]);
            }
        }
        i = i + 1;
    }
    out
}

/// Every recognized file under the scanned entries, sorted by name.
pub fn list_excalidraw_files(entries: &Vec<ScannedEntry>) -> (r: Vec<ExcalidrawFile>)
    ensures
        files_sorted(r@),
        r@.len() == flat_upto(entries@, entries@.len() as int).len(),
        forall|k: int|
            0 <= k < r@.len() ==> flat_upto(entries@, entries@.len() as int).contains(
                file_view(#[trigger] r@[k]),
            ),
        forall|m: int|
            0 <= m < flat_upto(entries@, entries@.len() as int).len() ==> file_views(r@).contains(
                #[trigger] flat_upto(entries@, entries@.len() as int)[m],
            ),
        forall|k: int| 0 <= k < r@.len() ==> !(#[trigger] r@[k]).modified,
{
    broadcast use vstd::seq_lib::group_to_multiset_ensures;

    let c = collect_excalidraw_files_recursive(entries);
    let ghost c0 = c@;
    let ghost flat = flat_upto(entries@, entries@.len() as int);
    let r = sort_files(c);
    proof {
        vstd::seq_lib::to_multiset_len(c0);
        vstd::seq_lib::to_multiset_len(r@);
        assert forall|k: int| 0 <= k < r@.len() implies flat.contains(file_view(#[trigger] r@[k]))
            && !r@[k].modified by {
            let x = r@[k];
            assert(r@.contains(x));
            assert(r@.to_multiset().count(x) > 0);
            assert(c0.contains(x));
            let m = choose|m: int| 0 <= m < c0.len() && c0[m] == x;
            assert(file_views(c0)[m] == file_view(x));
        }
        assert forall|m: int| 0 <= m < flat.len() implies file_views(r@).contains(#[trigger] flat[m]) by {
            let x = c0[m];
            assert(file_views(c0)[m] == file_view(x));
            assert(c0.contains(x));
            assert(c0.to_multiset().count(x) > 0);
            assert(r@.contains(x));
            let k = choose|k: int| 0 <= k < r@.len() && r@[k] == x;
            assert(file_views(r@)[k] == file_view(x));
        }
    }
    r
}

/// Within a sorted level every directory comes before every file, and nodes
/// of the same kind come in order of name.
pub proof fn lemma_level_order(nodes: Seq<FileTreeNode>, i: int, j: int)
    requires
        level_sorted(nodes),
        0 <= i < j < nodes.len(),
    ensures
        nodes[j].is_directory ==> nodes[i].is_directory,
        nodes[i].is_directory == nodes[j].is_directory ==> !lex_lt(nodes[j].name@, nodes[i].name@),
{
    assert(!node_lt(nodes[j], nodes[i]));
}

/// Below a node built from a scanned directory, the children form the level
/// built from that directory's scan: so every level of the tree, not only the
/// top one, holds exactly the entries with a recognized file beneath them.
pub proof fn lemma_built_directory_level(n: FileTreeNode, e: ScannedEntry)
    requires
        built_from(n, e),
        e.kind is Directory,
    ensures
        n.children is Some,
        level_matches(n.children->Some_0@, e.kind->Directory_0@),
        children_built(n.children->Some_0@, e.kind->Directory_0@, n.children->Some_0@.len() as int),
{
}

/// Sibling entries of a scan have distinct paths.
pub open spec fn distinct_paths(ents: Seq<ScannedEntry>) -> bool {
    forall|a: int, b: int| 0 <= a < b < ents.len() ==> (#[trigger] ents[a]).path@ != (#[trigger] ents[b]).path@
}

/// A scanned entry without a recognized file beneath it gets no node.
pub proof fn lemma_barren_entry_absent(nodes: Seq<FileTreeNode>, ents: Seq<ScannedEntry>, j: int)
    requires
        level_matches(nodes, ents),
        distinct_paths(ents),
        0 <= j < ents.len(),
        !holds_recognized(ents[j]),
    ensures
        forall|i: int| 0 <= i < nodes.len() ==> (#[trigger] nodes[i]).path@ != ents[j].path@,
{
    assert forall|i: int| 0 <= i < nodes.len() implies (#[trigger] nodes[i]).path@ != ents[j].path@ by {
        assert(from_entry(nodes[i], ents, ents.len() as int));
        let k = choose|k: int|
            0 <= k < ents.len() && k < ents.len() && holds_recognized(ents[k]) && #[trigger] shallow_match(
                nodes[i],
                ents[k],
            );
        if k < j {
            assert(ents[k].path@ != ents[j].path@);
        } else if k > j {
            assert(ents[j].path@ != ents[k].path@);
        }
    }
}

} // verus!
