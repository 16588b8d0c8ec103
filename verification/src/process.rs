//! Resolution of a process's descendant tree, grouped by depth.
//!
//! The engine never lists children itself — that is an external capability.
//! What it verifies is everything decided on top of the answers: a
//! [`TreeQuery`] says which pid to ask about next and collects the answers
//! into a [`ChildTable`] snapshot, and [`get_child_pids_full_tree`] turns a
//! snapshot into the [`DepthMap`] it determines.

use vstd::prelude::*;

use crate::types::ChildPids;

verus! {

/// One recorded answer of the child-listing capability: `pid` together
/// with the direct children reported for it.
pub struct ChildRow {
    pub pid: u32,
    pub children: ChildPids,
}

/// A snapshot of the child-listing capability's answers. A lookup takes
/// the first row recorded for a pid, so a pid that was asked about twice
/// keeps its first answer.
pub struct ChildTable {
    pub rows: Vec<ChildRow>,
}

/// The children recorded for `pid` in `rows[i..]`: the first matching
/// row's list, or the empty sequence when no row mentions the pid (a
/// process with no known children).
pub open spec fn table_lookup_from(rows: Seq<ChildRow>, pid: u32, i: int) -> Seq<u32>
    decreases rows.len() - i,
{
    if i < 0 || i >= rows.len() {
        Seq::empty()
    } else if rows[i].pid == pid {
        rows[i].children@
    } else {
        table_lookup_from(rows, pid, i + 1)
    }
}

/// The children recorded for `pid`: its first row's list, or the empty
/// sequence when no row mentions it.
pub open spec fn table_lookup(rows: Seq<ChildRow>, pid: u32) -> Seq<u32> {
    table_lookup_from(rows, pid, 0)
}

impl ChildTable {
    pub fn new() -> (r: Self)
        ensures
            r.rows@.len() == 0,
    {
        ChildTable { rows: Vec::new() }
    }

    /// Record the listed children of `pid` as the snapshot's next row.
    pub fn record(&mut self, pid: u32, children: ChildPids)
        ensures
            final(self).rows@ == old(self).rows@.push((ChildRow { pid, children })),
    {
        self.rows.push(ChildRow { pid, children });
    }

    /// The children recorded for `pid`, by its first row.
    pub fn lookup(&self, pid: u32) -> (r: ChildPids)
        ensures
            r@ == table_lookup(self.rows@, pid),
    {
        let n = self.rows.len();
        let mut i: usize = 0;
        while i < n
            invariant
                n == self.rows@.len(),
                0 <= i <= n,
                table_lookup(self.rows@, pid) == table_lookup_from(self.rows@, pid, i as int),
            decreases n - i,
        {
            if self.rows[i].pid == pid {
                return self.rows[i].children.clone();
            }
            i = i + 1;
        }
        Vec::new()
    }
}

/// The pids one level below `level[i..]`: each member's recorded children,
/// in the order the members stand in the level.
pub open spec fn next_level_from(rows: Seq<ChildRow>, level: Seq<u32>, i: int) -> Seq<u32>
    decreases level.len() - i,
{
    if i < 0 || i >= level.len() {
        Seq::empty()
    } else {
        table_lookup(rows, level[i]) + next_level_from(rows, level, i + 1)
    }
}

/// The pids one level below `level`: the recorded children of each of its
/// members, grouped by member, members in order.
pub open spec fn next_level(rows: Seq<ChildRow>, level: Seq<u32>) -> Seq<u32> {
    next_level_from(rows, level, 0)
}

/// A depth map as a sequence of levels: entry `d` holds the pids at depth
/// `d + 1` below the root it was resolved for.
pub open spec fn levels_view(levels: Seq<ChildPids>) -> Seq<Seq<u32>> {
    levels.map_values(|v: ChildPids| v@)
}

/// Descendants of one root grouped by depth: entry `d - 1` holds the pids
/// at depth `d`, depth 1 being the root's direct children. Built fresh by
/// each resolution and never mutated afterwards; depth 0 (the root itself)
/// is never an entry.
pub struct DepthMap {
    pub levels: Vec<ChildPids>,
}

impl View for DepthMap {
    type V = Seq<Seq<u32>>;

    open spec fn view(&self) -> Seq<Seq<u32>> {
        levels_view(self.levels@)
    }
}

impl DepthMap {
    /// How many depths the map has entries for.
    pub fn depth_count(&self) -> (r: usize)
        ensures
            r == self@.len(),
    {
        self.levels.len()
    }

    /// The entry at `depth`, when the map reaches that deep. Depth 0 is
    /// the root itself and never an entry.
    pub fn get(&self, depth: usize) -> (r: Option<&ChildPids>)
        ensures
            1 <= depth <= self@.len() ==> (r matches Some(v) && v@ == self@[depth - 1]),
            !(1 <= depth <= self@.len()) ==> r is None,
    {
        if 1 <= depth && depth <= self.levels.len() {
            Some(&self.levels[depth - 1])
        } else {
            None
        }
    }
}

/// The clauses every prefix of a resolution obeys: the first level is the
/// root's recorded children, and every later level is the one below its
/// predecessor.
pub open spec fn levels_consistent(rows: Seq<ChildRow>, root: u32, levels: Seq<Seq<u32>>) -> bool {
    &&& (levels.len() > 0 ==> levels[0] == table_lookup(rows, root))
    &&& (forall|d: int|
        1 <= d < levels.len() ==> #[trigger] levels[d] == next_level(rows, levels[d - 1]))
}

/// The depth map a snapshot determines for `root`: levels chained by
/// `next_level`, none of them empty, ending exactly where the next level
/// would be empty — and missing entirely when the root has no recorded
/// children.
pub open spec fn is_resolution(rows: Seq<ChildRow>, root: u32, levels: Seq<Seq<u32>>) -> bool {
    &&& levels_consistent(rows, root, levels)
    &&& (levels.len() == 0 ==> table_lookup(rows, root).len() == 0)
    &&& (forall|d: int| 0 <= d < levels.len() ==> #[trigger] levels[d].len() > 0)
    &&& (levels.len() > 0 ==> next_level(rows, levels[levels.len() - 1]).len() == 0)
}

/// A snapshot grounds out for `root` when it determines a depth map within
/// its own size. A snapshot collected from a live tree always does — every
/// entry of the map is one discovery of one process, and every discovery
/// has its own row — while a snapshot whose recorded child relation leads
/// back into itself never grounds out.
pub open spec fn resolvable(rows: Seq<ChildRow>, root: u32) -> bool {
    exists|levels: Seq<Seq<u32>>| is_resolution(rows, root, levels) && levels.len() <= rows.len()
}

/// The depth map a resolvable snapshot determines; it is the only one, by
/// `lemma_resolution_unique`.
pub open spec fn the_resolution(rows: Seq<ChildRow>, root: u32) -> Seq<Seq<u32>> {
    choose|levels: Seq<Seq<u32>>| is_resolution(rows, root, levels) && levels.len() <= rows.len()
}

/// Consistent level sequences of one snapshot and root agree wherever both
/// are defined.
proof fn lemma_levels_agree(
    rows: Seq<ChildRow>,
    root: u32,
    a: Seq<Seq<u32>>,
    b: Seq<Seq<u32>>,
    d: int,
)
    requires
        levels_consistent(rows, root, a),
        levels_consistent(rows, root, b),
        0 <= d < a.len(),
        d < b.len(),
    ensures
        a[d] == b[d],
    decreases d,
{
    if d > 0 {
        lemma_levels_agree(rows, root, a, b, d - 1);
    }
}

/// A snapshot determines at most one depth map for a root: resolving the
/// same snapshot for the same root twice yields identical results.
pub proof fn lemma_resolution_unique(
    rows: Seq<ChildRow>,
    root: u32,
    a: Seq<Seq<u32>>,
    b: Seq<Seq<u32>>,
)
    requires
        is_resolution(rows, root, a),
        is_resolution(rows, root, b),
    ensures
        a == b,
{
    if a.len() < b.len() {
        if a.len() == 0 {
            assert(b[0] == table_lookup(rows, root));
            assert(false);
        } else {
            lemma_levels_agree(rows, root, a, b, a.len() - 1);
            assert(b[a.len() as int] == next_level(rows, b[a.len() - 1]));
            assert(false);
        }
    }
    if b.len() < a.len() {
        if b.len() == 0 {
            assert(a[0] == table_lookup(rows, root));
            assert(false);
        } else {
            lemma_levels_agree(rows, root, b, a, b.len() - 1);
            assert(a[b.len() as int] == next_level(rows, a[b.len() - 1]));
            assert(false);
        }
    }
    assert forall|d: int| 0 <= d < a.len() implies a[d] == b[d] by {
        lemma_levels_agree(rows, root, a, b, d);
    }
    assert(a =~= b);
}

/// The level below a given level is the same in two snapshots whose
/// recorded child relations agree pointwise.
proof fn lemma_next_level_same(rows1: Seq<ChildRow>, rows2: Seq<ChildRow>, level: Seq<u32>, i: int)
    requires
        forall|p: u32| #[trigger] table_lookup(rows1, p) == table_lookup(rows2, p),
    ensures
        next_level_from(rows1, level, i) == next_level_from(rows2, level, i),
    decreases level.len() - i,
{
    if 0 <= i < level.len() {
        lemma_next_level_same(rows1, rows2, level, i + 1);
    }
}

/// The depth map depends on the recorded child relation alone: two
/// snapshots that record the same children for every pid — for instance
/// two resolutions of one static tree in the absence of process churn —
/// determine identical depth maps.
pub proof fn lemma_resolution_depends_on_children_only(
    rows1: Seq<ChildRow>,
    rows2: Seq<ChildRow>,
    root: u32,
    a: Seq<Seq<u32>>,
    b: Seq<Seq<u32>>,
)
    requires
        forall|p: u32| #[trigger] table_lookup(rows1, p) == table_lookup(rows2, p),
        is_resolution(rows1, root, a),
        is_resolution(rows2, root, b),
    ensures
        a == b,
{
    assert forall|d: int| 1 <= d < b.len() implies #[trigger] b[d] == next_level(
        rows1,
        b[d - 1],
    ) by {
        lemma_next_level_same(rows1, rows2, b[d - 1], 0);
    }
    if b.len() > 0 {
        lemma_next_level_same(rows1, rows2, b[b.len() - 1], 0);
    }
    assert(is_resolution(rows1, root, b));
    lemma_resolution_unique(rows1, root, a, b);
}

/// A consistent prefix whose next level is still nonempty is strictly
/// shorter than any resolution of the same snapshot and root.
proof fn lemma_partial_shorter(
    rows: Seq<ChildRow>,
    root: u32,
    partial: Seq<Seq<u32>>,
    current: Seq<u32>,
    full: Seq<Seq<u32>>,
)
    requires
        levels_consistent(rows, root, partial),
        forall|d: int| 0 <= d < partial.len() ==> #[trigger] partial[d].len() > 0,
        partial.len() == 0 ==> current == table_lookup(rows, root),
        partial.len() > 0 ==> current == next_level(rows, partial[partial.len() - 1]),
        current.len() > 0,
        is_resolution(rows, root, full),
    ensures
        full.len() > partial.len(),
{
    if full.len() < partial.len() {
        if full.len() == 0 {
            assert(partial[0] == table_lookup(rows, root));
        } else {
            lemma_levels_agree(rows, root, partial, full, full.len() - 1);
            assert(partial[full.len() as int] == next_level(rows, partial[full.len() - 1]));
        }
        assert(false);
    } else if full.len() == partial.len() {
        if partial.len() > 0 {
            lemma_levels_agree(rows, root, partial, full, partial.len() - 1);
        }
        assert(false);
    }
}

/// `levels_view` distributes over pushing a level.
proof fn lemma_levels_view_push(levels: Seq<ChildPids>, v: ChildPids)
    ensures
        levels_view(levels.push(v)) == levels_view(levels).push(v@),
{
    assert(levels_view(levels.push(v)) =~= levels_view(levels).push(v@));
}

/// The pids one level below `level`, by the snapshot's recorded children.
fn next_level_exec(table: &ChildTable, level: &ChildPids) -> (r: ChildPids)
    ensures
        r@ == next_level(table.rows@, level@),
{
    let mut acc: ChildPids = Vec::new();
    let n = level.len();
    let mut i: usize = 0;
    proof {
        assert(acc@ + next_level_from(table.rows@, level@, 0) =~= next_level_from(
            table.rows@,
            level@,
            0,
        ));
    }
    while i < n
        invariant
            n == level@.len(),
            0 <= i <= n,
            next_level(table.rows@, level@) == acc@ + next_level_from(table.rows@, level@, i as int),
        decreases n - i,
    {
        let mut kids = table.lookup(level[i]);
        proof {
            assert((acc@ + kids@) + next_level_from(table.rows@, level@, i + 1) =~= acc@ + (kids@
                + next_level_from(table.rows@, level@, i + 1)));
        }
        acc.append(&mut kids);
        i = i + 1;
    }
    proof {
        assert(acc@ + next_level_from(table.rows@, level@, n as int) =~= acc@);
    }
    acc
}

/// Resolve the full descendant tree of `root` as the snapshot records it:
/// depth 1 holds the root's direct children, depth d + 1 the children of
/// the pids at depth d, ending at the first depth that would be empty. A
/// root with no recorded children resolves to the empty map.
///
/// `None` when the snapshot does not ground out — its recorded child
/// relation leads back into itself — which a snapshot of a live process
/// tree never does.
pub fn get_child_pids_full_tree(root: u32, table: &ChildTable) -> (r: Option<DepthMap>)
    ensures
        r matches Some(m) ==> is_resolution(table.rows@, root, m@) && m@ == the_resolution(
            table.rows@,
            root,
        ),
        r is Some <==> resolvable(table.rows@, root),
        table_lookup(table.rows@, root).len() == 0 ==> (r matches Some(m) && m@.len() == 0),
{
    let rows_len = table.rows.len();
    let mut levels: Vec<ChildPids> = Vec::new();
    let mut current: ChildPids = table.lookup(root);
    while current.len() > 0
        invariant
            rows_len == table.rows@.len(),
            levels@.len() <= rows_len,
            levels_consistent(table.rows@, root, levels_view(levels@)),
            forall|d: int|
                0 <= d < levels@.len() ==> #[trigger] levels_view(levels@)[d].len() > 0,
            levels@.len() == 0 ==> current@ == table_lookup(table.rows@, root),
            levels@.len() > 0 ==> current@ == next_level(
                table.rows@,
                levels_view(levels@)[levels@.len() - 1],
            ),
        decreases rows_len - levels@.len(),
    {
        if levels.len() == rows_len {
            proof {
                assert forall|ls: Seq<Seq<u32>>|
                    is_resolution(table.rows@, root, ls) implies ls.len()
                    > table.rows@.len() by {
                    lemma_partial_shorter(
                        table.rows@,
                        root,
                        levels_view(levels@),
                        current@,
                        ls,
                    );
                }
            }
            return None;
        }
        let next = next_level_exec(table, &current);
        let ghost prev = levels_view(levels@);
        let ghost prev_current = current@;
        proof {
            lemma_levels_view_push(levels@, current);
        }
        levels.push(current);
        current = next;
        proof {
            let now = levels_view(levels@);
            assert(now == prev.push(prev_current));
            assert forall|d: int| 1 <= d < now.len() implies #[trigger] now[d] == next_level(
                table.rows@,
                now[d - 1],
            ) by {
                if d < prev.len() {
                    assert(prev[d] == next_level(table.rows@, prev[d - 1]));
                }
            }
        }
    }
    let m = DepthMap { levels };
    proof {
        let mv = m@;
        let rows = table.rows@;
        assert(is_resolution(rows, root, mv));
        assert(resolvable(rows, root));
        let chosen = the_resolution(rows, root);
        assert(is_resolution(rows, root, chosen) && chosen.len() <= rows.len());
        lemma_resolution_unique(rows, root, mv, chosen);
        if table_lookup(rows, root).len() == 0 {
            if mv.len() > 0 {
                assert(mv[0] == table_lookup(rows, root));
            }
        }
    }
    Some(m)
}

/// The pids at exactly `depth` levels below `root` in the snapshot: the
/// resolved depth map's entry there, when the map grounds out and reaches
/// that deep; `None` otherwise. Depth 0 — the root itself — is never an
/// entry.
pub fn get_child_pids_at_depth(root: u32, depth: u8, table: &ChildTable) -> (r: Option<ChildPids>)
    ensures
        (resolvable(table.rows@, root) && 1 <= depth <= the_resolution(table.rows@, root).len())
            ==> (r matches Some(v) && v@ == the_resolution(table.rows@, root)[depth - 1]),
        !(resolvable(table.rows@, root) && 1 <= depth <= the_resolution(table.rows@, root).len())
            ==> r is None,
{
    match get_child_pids_full_tree(root, table) {
        None => None,
        Some(m) => match m.get(depth as usize) {
            None => None,
            Some(v) => Some(v.clone()),
        },
    }
}

/// Drives snapshot collection without listing anything itself: it says
/// which pid the child-listing capability should be asked about next, and
/// records the answers. The caller repeatedly takes `next_pid`, lists that
/// pid's direct children, and hands them to `record_children`; once no pid
/// is pending, the snapshot covers every process the recorded tree
/// reaches, each discovery under its own row.
pub struct TreeQuery {
    table: ChildTable,
    pending: Vec<u32>,
}

impl TreeQuery {
    /// The snapshot rows recorded so far.
    pub closed spec fn spec_table(self) -> Seq<ChildRow> {
        self.table.rows@
    }

    /// The pids discovered but not yet asked about, in stack order.
    pub closed spec fn spec_pending(self) -> Seq<u32> {
        self.pending@
    }

    /// Begin collecting a snapshot of the tree rooted at `root`.
    pub fn new(root: u32) -> (r: Self)
        ensures
            r.spec_table().len() == 0,
            r.spec_pending() == seq![root],
    {
        let mut pending: Vec<u32> = Vec::new();
        pending.push(root);
        proof {
            assert(pending@ =~= seq![root]);
        }
        TreeQuery { table: ChildTable::new(), pending }
    }

    /// The pid whose children should be listed next, if one is pending.
    pub fn next_pid(&self) -> (r: Option<u32>)
        ensures
            r is None <==> self.spec_pending().len() == 0,
            r matches Some(p) ==> p == self.spec_pending().last(),
    {
        if self.pending.len() == 0 {
            None
        } else {
            Some(self.pending[self.pending.len() - 1])
        }
    }

    /// Record the listed children of the pid `next_pid` last handed out:
    /// they join the snapshot under that pid, and each becomes pending in
    /// turn.
    pub fn record_children(&mut self, children: ChildPids)
        requires
            old(self).spec_pending().len() > 0,
        ensures
            final(self).spec_table() == old(self).spec_table().push(
                (ChildRow { pid: old(self).spec_pending().last(), children }),
            ),
            final(self).spec_pending() == old(self).spec_pending().drop_last() + children@,
    {
        let pid = self.pending.pop().unwrap();
        let ghost popped = self.pending@;
        let n = children.len();
        let mut i: usize = 0;
        proof {
            assert(popped + children@.take(0) =~= popped);
        }
        while i < n
            invariant
                n == children@.len(),
                0 <= i <= n,
                self.pending@ == popped + children@.take(i as int),
                self.table == old(self).table,
            decreases n - i,
        {
            let ghost before = self.pending@;
            self.pending.push(children[i]);
            proof {
                assert(before.push(children@[i as int]) =~= popped + children@.take(i + 1));
            }
            i = i + 1;
        }
        proof {
            assert(popped + children@.take(n as int) =~= popped + children@);
        }
        self.table.record(pid, children);
    }

    /// The finished snapshot; complete once nothing is pending.
    pub fn into_table(self) -> (r: ChildTable)
        ensures
            r.rows@ == self.spec_table(),
    {
        self.table
    }
}

/// A decimal digit byte.
pub open spec fn is_digit(b: u8) -> bool {
    48 <= b <= 57
}

/// The number a sequence of decimal digit bytes denotes.
pub open spec fn line_value(s: Seq<u8>) -> int
    decreases s.len(),
{
    if s.len() == 0 {
        0
    } else {
        line_value(s.drop_last()) * 10 + (s.last() - 48)
    }
}

/// A line that denotes a pid: nonempty, decimal digits only, in range.
pub open spec fn ok_pid_line(s: Seq<u8>) -> bool {
    &&& s.len() > 0
    &&& (forall|i: int| 0 <= i < s.len() ==> is_digit(#[trigger] s[i]))
    &&& line_value(s) <= u32::MAX
}

/// The newline-separated segments of `s`: one more segment than `s` has
/// newline bytes, in order, empty segments kept.
pub open spec fn split_lines(s: Seq<u8>) -> Seq<Seq<u8>>
    decreases s.len(),
{
    if s.len() == 0 {
        seq![Seq::empty()]
    } else if s.last() == 10 {
        split_lines(s.drop_last()).push(Seq::empty())
    } else {
        let r = split_lines(s.drop_last());
        r.update(r.len() - 1, r.last().push(s.last()))
    }
}

/// The pid lines of a child listing: its newline-separated segments,
/// without the empty segment that a trailing newline (or an empty
/// listing) leaves behind.
pub open spec fn pid_lines(s: Seq<u8>) -> Seq<Seq<u8>> {
    let segs = split_lines(s);
    if segs.last().len() == 0 {
        segs.drop_last()
    } else {
        segs
    }
}

/// What a child listing parses to: one pid per line when every line is a
/// decimal number in range, and nothing at all otherwise.
pub open spec fn spec_parse_pid_lines(s: Seq<u8>) -> Option<Seq<u32>> {
    let lines = pid_lines(s);
    if forall|i: int| 0 <= i < lines.len() ==> ok_pid_line(#[trigger] lines[i]) {
        Some(Seq::new(lines.len(), |i: int| line_value(lines[i]) as u32))
    } else {
        None
    }
}

/// A chain of nested processes resolves to one level per link. For pids
/// `p_0, ..., p_n` where the snapshot records exactly `p_(i+1)` as the one
/// child of `p_i` and nothing under `p_n`, the depth map of `p_0` has
/// exactly `n` entries — depth numbering starting at 1 — and the entry at
/// depth `d` holds exactly `p_d`.
pub proof fn lemma_chain_resolution(rows: Seq<ChildRow>, pids: Seq<u32>)
    requires
        pids.len() >= 1,
        forall|i: int|
            0 <= i < pids.len() - 1 ==> #[trigger] table_lookup(rows, pids[i]) == seq![
                pids[i + 1],
            ],
        table_lookup(rows, pids.last()) == Seq::<u32>::empty(),
    ensures
        is_resolution(
            rows,
            pids[0],
            Seq::new((pids.len() - 1) as nat, |d: int| seq![pids[d + 1]]),
        ),
{
    let n = pids.len() - 1;
    let levels = Seq::new(n as nat, |d: int| seq![pids[d + 1]]);
    assert forall|p: u32| next_level(rows, seq![p]) =~= table_lookup(rows, p) by {
        assert(next_level_from(rows, seq![p], 1) =~= Seq::<u32>::empty());
        assert(table_lookup(rows, p) + Seq::<u32>::empty() =~= table_lookup(rows, p));
    }
    if n == 0 {
        assert(pids[0] == pids.last());
    } else {
        assert(levels[0] == seq![pids[1]]);
        assert(levels[0] == table_lookup(rows, pids[0]));
        assert forall|d: int| 1 <= d < n implies #[trigger] levels[d] == next_level(
            rows,
            levels[d - 1],
        ) by {
            assert(next_level(rows, seq![pids[d]]) == table_lookup(rows, pids[d]));
        }
        assert(levels[n - 1] == seq![pids[n]]);
        assert(pids[n] == pids.last());
        assert(next_level(rows, levels[n - 1]) == table_lookup(rows, pids.last()));
    }
}

/// Parse the byte output of a child listing — one decimal pid per line —
/// into the listed pids, in order. `None` when any line is empty, holds a
/// byte that is no digit, or denotes a number out of range.
pub fn parse_pid_lines(output: &Vec<u8>) -> (r: Option<ChildPids>)
    ensures
        r matches Some(v) ==> spec_parse_pid_lines(output@) == Some(v@),
        r is None ==> spec_parse_pid_lines(output@) is None,
{
    let s = output.as_slice();
    let n = s.len();
    let mut acc: ChildPids = Vec::new();
    let mut cur: u64 = 0;
    let mut cur_len: usize = 0;
    let mut digits_ok: bool = true;
    let mut value_big: bool = false;
    let mut all_ok: bool = true;
    let mut i: usize = 0;
    proof {
        assert(s@.take(0) =~= Seq::<u8>::empty());
    }
    while i < n
        invariant
            s@ == output@,
            n == s@.len(),
            0 <= i <= n,
            split_lines(s@.take(i as int)).len() >= 1,
            cur_len <= i,
            cur_len == split_lines(s@.take(i as int)).last().len(),
            digits_ok == (forall|k: int|
                0 <= k < cur_len ==> is_digit(#[trigger] split_lines(s@.take(i as int)).last()[k])),
            digits_ok && !value_big ==> cur as int == line_value(
                split_lines(s@.take(i as int)).last(),
            ) && cur <= u32::MAX as u64,
            digits_ok && value_big ==> line_value(split_lines(s@.take(i as int)).last())
                > u32::MAX,
            all_ok == (forall|k: int|
                0 <= k < split_lines(s@.take(i as int)).len() - 1 ==> ok_pid_line(
                    #[trigger] split_lines(s@.take(i as int))[k],
                )),
            all_ok ==> acc@.len() == split_lines(s@.take(i as int)).len() - 1,
            all_ok ==> (forall|k: int|
                0 <= k < acc@.len() ==> acc@[k] as int == line_value(
                    #[trigger] split_lines(s@.take(i as int))[k],
                )),
        decreases n - i,
    {
        let ghost prev = s@.take(i as int);
        let ghost segs = split_lines(prev);
        let b = s[i];
        proof {
            assert(s@.take(i + 1).drop_last() =~= prev);
            assert(s@.take(i + 1).last() == s@[i as int]);
        }
        if b == 10 {
            let ghost done = segs.last();
            let ghost was_ok = all_ok;
            let line_ok = cur_len > 0 && digits_ok && !value_big;
            proof {
                assert(split_lines(s@.take(i + 1)) == segs.push(Seq::<u8>::empty()));
                assert(line_ok == ok_pid_line(done));
            }
            if line_ok {
                acc.push(cur as u32);
            } else {
                all_ok = false;
            }
            proof {
                let now = split_lines(s@.take(i + 1));
                assert(now.last().len() == 0);
                if was_ok && line_ok {
                    assert forall|k: int| 0 <= k < now.len() - 1 implies ok_pid_line(
                        #[trigger] now[k],
                    ) by {
                        if k < segs.len() - 1 {
                            assert(now[k] == segs[k]);
                            assert(ok_pid_line(segs[k]));
                        } else {
                            assert(now[k] == done);
                        }
                    }
                    assert forall|k: int| 0 <= k < acc@.len() implies acc@[k] as int
                        == line_value(#[trigger] now[k]) by {
                        if k < acc@.len() - 1 {
                            assert(now[k] == segs[k]);
                        } else {
                            assert(now[k] == done);
                        }
                    }
                } else if !was_ok {
                    let k0 = choose|k: int|
                        0 <= k < segs.len() - 1 && !ok_pid_line(#[trigger] segs[k]);
                    assert(now[k0] == segs[k0]);
                    assert(!ok_pid_line(now[k0]));
                } else {
                    assert(now[segs.len() - 1] == done);
                    assert(!ok_pid_line(now[segs.len() - 1]));
                }
            }
            cur = 0;
            cur_len = 0;
            digits_ok = true;
            value_big = false;
        } else {
            let ghost ext = segs.last().push(b);
            proof {
                assert(split_lines(s@.take(i + 1)) == segs.update(segs.len() - 1, ext));
                assert(split_lines(s@.take(i + 1)).last() == ext);
                assert(ext.drop_last() =~= segs.last());
                assert(line_value(ext) == line_value(segs.last()) * 10 + (b - 48));
            }
            if b >= 48 && b <= 57 {
                if digits_ok && !value_big {
                    let d = (b - 48) as u64;
                    let next_val = cur * 10 + d;
                    if next_val > u32::MAX as u64 {
                        value_big = true;
                        proof {
                            assert(line_value(ext) == next_val);
                        }
                    } else {
                        cur = next_val;
                    }
                } else {
                    proof {
                        if digits_ok {
                            let v = line_value(segs.last());
                            assert(v * 10 + (b - 48) >= v) by (nonlinear_arith)
                                requires
                                    v > 0,
                                    48 <= b <= 57,
                            ;
                        }
                    }
                }
                proof {
                    assert forall|k: int| 0 <= k < ext.len() implies (is_digit(#[trigger] ext[k])
                        == if k < segs.last().len() {
                        is_digit(segs.last()[k])
                    } else {
                        is_digit(b)
                    }) by {}
                }
            } else {
                digits_ok = false;
                proof {
                    assert(ext[ext.len() - 1] == b);
                    assert(!is_digit(b));
                }
            }
            cur_len = cur_len + 1;
            proof {
                let now = split_lines(s@.take(i + 1));
                if all_ok {
                    assert forall|k: int| 0 <= k < now.len() - 1 implies ok_pid_line(
                        #[trigger] now[k],
                    ) by {
                        assert(now[k] == segs[k]);
                        assert(ok_pid_line(segs[k]));
                    }
                    assert forall|k: int| 0 <= k < acc@.len() implies acc@[k] as int
                        == line_value(#[trigger] now[k]) by {
                        assert(now[k] == segs[k]);
                    }
                } else {
                    let k0 = choose|k: int|
                        0 <= k < segs.len() - 1 && !ok_pid_line(#[trigger] segs[k]);
                    assert(now[k0] == segs[k0]);
                    assert(!ok_pid_line(now[k0]));
                }
            }
        }
        i = i + 1;
    }
    proof {
        assert(s@.take(n as int) =~= s@);
    }
    let ghost segs = split_lines(s@);
    if cur_len == 0 {
        proof {
            assert(pid_lines(s@) == segs.drop_last());
        }
        if all_ok {
            proof {
                let lines = pid_lines(s@);
                assert forall|k: int| 0 <= k < lines.len() implies ok_pid_line(
                    #[trigger] lines[k],
                ) by {
                    assert(lines[k] == segs[k]);
                    assert(ok_pid_line(segs[k]));
                }
                assert(Seq::new(lines.len(), |k: int| line_value(lines[k]) as u32) =~= acc@);
            }
            Some(acc)
        } else {
            proof {
                let lines = pid_lines(s@);
                let k0 = choose|k: int|
                    0 <= k < segs.len() - 1 && !ok_pid_line(#[trigger] segs[k]);
                assert(lines[k0] == segs[k0]);
                assert(!ok_pid_line(lines[k0]));
            }
            None
        }
    } else {
        let line_ok = digits_ok && !value_big;
        proof {
            assert(pid_lines(s@) == segs);
            assert(line_ok == ok_pid_line(segs.last()));
        }
        if all_ok && line_ok {
            acc.push(cur as u32);
            proof {
                let lines = pid_lines(s@);
                assert forall|k: int| 0 <= k < lines.len() implies ok_pid_line(
                    #[trigger] lines[k],
                ) by {
                    if k < lines.len() - 1 {
                        assert(ok_pid_line(segs[k]));
                    }
                }
                assert(Seq::new(lines.len(), |k: int| line_value(lines[k]) as u32) =~= acc@);
            }
            Some(acc)
        } else {
            proof {
                let lines = pid_lines(s@);
                if !all_ok {
                    let k0 = choose|k: int|
                        0 <= k < segs.len() - 1 && !ok_pid_line(#[trigger] segs[k]);
                    assert(lines[k0] == segs[k0]);
                    assert(!ok_pid_line(lines[k0]));
                } else {
                    assert(lines[lines.len() - 1] == segs.last());
                    assert(!ok_pid_line(lines[lines.len() - 1]));
                }
            }
            None
        }
    }
}

} // verus!
