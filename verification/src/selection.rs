//! Drag-rectangle selection over the local player's units, and right-click
//! formation move orders.

use vstd::prelude::*;

use crate::board::PlayerId;
use crate::formation::{compute_formation_offsets, formation_offset_spec};
use crate::fx::{clamp_coord, clamp_coord_spec, dist_sq_spec, in_box, V2, COORD_LIMIT};
use crate::units::{units_wf, Unit, UNIT_CAP};

verus! {

/// The selection rectangle is inflated by this margin on each side.
pub const SELECTION_PAD: i64 = 8_000;

/// A release closer than this squared distance to its press is a click.
pub const CLICK_EPS_SQ: i64 = 16_000_000;

/// Pointer state of one host frame, in world coordinates.
#[derive(Clone, Copy, Debug)]
pub struct CommandBatch {
    pub cursor_world: Option<V2>,
    pub left_just_pressed: bool,
    pub left_down: bool,
    pub left_just_released: bool,
    pub right_just_pressed: bool,
}

impl Default for CommandBatch {
    /// A frame with no pointer input at all.
    fn default() -> (r: CommandBatch)
        ensures
            r == (CommandBatch {
                cursor_world: None,
                left_just_pressed: false,
                left_down: false,
                left_just_released: false,
                right_just_pressed: false,
            }),
    {
        CommandBatch {
            cursor_world: None,
            left_just_pressed: false,
            left_down: false,
            left_just_released: false,
            right_just_pressed: false,
        }
    }
}

/// The drag-selection state machine.
#[derive(Clone, Debug)]
pub struct SelectionState {
    pub is_dragging: bool,
    pub start_world: V2,
    pub current_world: V2,
    /// Unit ids currently selected, without duplicates.
    pub selected: Vec<u64>,
    /// The previous selection, for the controller's highlight bookkeeping.
    pub prev_selected: Vec<u64>,
    /// Set whenever the selection changed this frame.
    pub dirty: bool,
}

/// The mathematical value of a selection state.
pub struct SelView {
    pub is_dragging: bool,
    pub start_world: V2,
    pub current_world: V2,
    pub selected: Seq<u64>,
    pub prev_selected: Seq<u64>,
    pub dirty: bool,
}

impl View for SelectionState {
    type V = SelView;

    open spec fn view(&self) -> SelView {
        SelView {
            is_dragging: self.is_dragging,
            start_world: self.start_world,
            current_world: self.current_world,
            selected: self.selected@,
            prev_selected: self.prev_selected@,
            dirty: self.dirty,
        }
    }
}

pub open spec fn ids_distinct(s: Seq<u64>) -> bool {
    forall|i: int, j: int| 0 <= i < j < s.len() ==> s[i] != s[j]
}

/// Well-formedness of the selection: no duplicate ids, a bounded count, and
/// in-box drag corners.
pub open spec fn sel_wf(v: SelView) -> bool {
    &&& ids_distinct(v.selected)
    &&& v.selected.len() <= UNIT_CAP
    &&& in_box(v.start_world, COORD_LIMIT as int)
    &&& in_box(v.current_world, COORD_LIMIT as int)
}

impl Default for SelectionState {
    /// No drag in progress and nothing selected.
    fn default() -> (r: SelectionState)
        ensures
            r@ == (SelView {
                is_dragging: false,
                start_world: V2 { x: 0, y: 0 },
                current_world: V2 { x: 0, y: 0 },
                selected: Seq::<u64>::empty(),
                prev_selected: Seq::<u64>::empty(),
                dirty: false,
            }),
            sel_wf(r@),
    {
        let r = SelectionState {
            is_dragging: false,
            start_world: V2 { x: 0, y: 0 },
            current_world: V2 { x: 0, y: 0 },
            selected: Vec::new(),
            prev_selected: Vec::new(),
            dirty: false,
        };
        proof {
            assert(r@.selected =~= Seq::<u64>::empty());
            assert(r@.prev_selected =~= Seq::<u64>::empty());
        }
        r
    }
}

/// The id of unit `i`, named for triggering.
pub open spec fn id_at(us: Seq<Unit>, i: int) -> u64 {
    us[i].id
}

/// Some unit carries this id.
pub open spec fn has_unit_id(us: Seq<Unit>, id: u64) -> bool {
    exists|i: int| 0 <= i < us.len() && #[trigger] id_at(us, i) == id
}

/// The ids of the local player's units inside the padded box, from index `j`
/// onward, in store order.
pub open spec fn hits_from(us: Seq<Unit>, local: PlayerId, lo: V2, hi: V2, j: int) -> Seq<u64>
    decreases us.len() - j,
{
    if j < 0 || j >= us.len() {
        Seq::empty()
    } else {
        let rest = hits_from(us, local, lo, hi, j + 1);
        if us[j].player == local && lo.x <= us[j].pos.x <= hi.x && lo.y <= us[j].pos.y <= hi.y {
            seq![us[j].id] + rest
        } else {
            rest
        }
    }
}

/// Fold the new hits into the selection: append each hit that is not already
/// present.
pub open spec fn add_new(acc: Seq<u64>, hits: Seq<u64>) -> Seq<u64>
    decreases hits.len(),
{
    if hits.len() == 0 {
        acc
    } else {
        let acc2 = if acc.contains(hits[0]) {
            acc
        } else {
            acc.push(hits[0])
        };
        add_new(acc2, hits.subrange(1, hits.len() as int))
    }
}

pub proof fn lemma_add_new_distinct(acc: Seq<u64>, hits: Seq<u64>)
    requires
        ids_distinct(acc),
    ensures
        ids_distinct(add_new(acc, hits)),
        acc.len() <= add_new(acc, hits).len() <= acc.len() + hits.len(),
    decreases hits.len(),
{
    if hits.len() > 0 {
        let acc2 = if acc.contains(hits[0]) {
            acc
        } else {
            acc.push(hits[0])
        };
        assert(ids_distinct(acc2)) by {
            if !acc.contains(hits[0]) {
                assert forall|i: int, j: int| 0 <= i < j < acc2.len() implies acc2[i] != acc2[j] by {
                    if j == acc2.len() - 1 {
                        assert(acc2[j] == hits[0]);
                        assert(!acc.contains(acc2[j]));
                        assert(acc2[i] == acc[i]);
                    }
                }
            }
        }
        lemma_add_new_distinct(acc2, hits.subrange(1, hits.len() as int));
    }
}

/// Keep, in order, the ids of units still alive, up to the capacity.
pub open spec fn alive_filter(sel: Seq<u64>, us: Seq<Unit>, acc: Seq<u64>) -> Seq<u64>
    decreases sel.len(),
{
    if sel.len() == 0 {
        acc
    } else {
        let acc2 = if has_unit_id(us, sel[0]) && acc.len() < UNIT_CAP {
            acc.push(sel[0])
        } else {
            acc
        };
        alive_filter(sel.subrange(1, sel.len() as int), us, acc2)
    }
}

pub proof fn lemma_alive_filter_wf(sel: Seq<u64>, us: Seq<Unit>, acc: Seq<u64>)
    requires
        ids_distinct(acc),
        acc.len() <= UNIT_CAP,
        forall|k: int| 0 <= k < acc.len() ==> !sel.contains(#[trigger] acc[k]),
        ids_distinct(sel),
    ensures
        ids_distinct(alive_filter(sel, us, acc)),
        alive_filter(sel, us, acc).len() <= UNIT_CAP,
    decreases sel.len(),
{
    if sel.len() > 0 {
        let tail = sel.subrange(1, sel.len() as int);
        let acc2 = if has_unit_id(us, sel[0]) && acc.len() < UNIT_CAP {
            acc.push(sel[0])
        } else {
            acc
        };
        assert(ids_distinct(acc2) && forall|k: int|
            0 <= k < acc2.len() ==> !tail.contains(#[trigger] acc2[k])) by {
            assert(!acc.contains(sel[0])) by {
                if acc.contains(sel[0]) {
                    let w = choose|w: int| 0 <= w < acc.len() && acc[w] == sel[0];
                    assert(sel.contains(acc[w]));
                }
            }
            assert forall|k: int| 0 <= k < acc2.len() implies !tail.contains(#[trigger] acc2[k]) by {
                if tail.contains(acc2[k]) {
                    let w = choose|w: int| 0 <= w < tail.len() && tail[w] == acc2[k];
                    assert(sel[w + 1] == acc2[k]);
                    if k < acc.len() {
                        assert(sel.contains(acc[k]));
                        assert(false);
                    } else {
                        assert(acc2[k] == sel[0]);
                        assert(sel[w + 1] == sel[0]);
                        assert(false);
                    }
                }
            }
            if acc2.len() > acc.len() {
                assert forall|i: int, j: int| 0 <= i < j < acc2.len() implies acc2[i] != acc2[j] by {
                    if j == acc2.len() - 1 {
                        assert(acc2[j] == sel[0]);
                        assert(acc2[i] == acc[i]);
                    }
                }
            }
        }
        assert(ids_distinct(tail));
        lemma_alive_filter_wf(tail, us, acc2);
    }
}

/// The selection after a release: box the drag, pad it, gather the local
/// player's units inside, and either clear (a click that hit nothing) or
/// union the hits into the previous selection.
pub open spec fn release_spec(v: SelView, us: Seq<Unit>, local: PlayerId) -> SelView {
    let minx = if v.start_world.x <= v.current_world.x {
        v.start_world.x as int
    } else {
        v.current_world.x as int
    };
    let maxx = if v.start_world.x <= v.current_world.x {
        v.current_world.x as int
    } else {
        v.start_world.x as int
    };
    let miny = if v.start_world.y <= v.current_world.y {
        v.start_world.y as int
    } else {
        v.current_world.y as int
    };
    let maxy = if v.start_world.y <= v.current_world.y {
        v.current_world.y as int
    } else {
        v.start_world.y as int
    };
    let lo = V2 { x: (minx - SELECTION_PAD) as i64, y: (miny - SELECTION_PAD) as i64 };
    let hi = V2 { x: (maxx + SELECTION_PAD) as i64, y: (maxy + SELECTION_PAD) as i64 };
    let hits = hits_from(us, local, lo, hi, 0);
    let is_click = dist_sq_spec(v.current_world, v.start_world) < CLICK_EPS_SQ;
    let selected = if is_click && hits.len() == 0 {
        Seq::<u64>::empty()
    } else {
        add_new(v.selected, hits)
    };
    SelView {
        is_dragging: false,
        start_world: v.start_world,
        current_world: v.start_world,
        selected,
        prev_selected: v.selected,
        dirty: true,
    }
}

/// The whole per-frame selection step: press starts a drag, holding updates
/// it, release selects, and stale ids are pruned.
pub open spec fn selection_step_spec(
    v: SelView,
    us: Seq<Unit>,
    local: PlayerId,
    cmd: CommandBatch,
) -> SelView {
    let v1 = if cmd.left_just_pressed && cmd.cursor_world is Some {
        SelView {
            is_dragging: true,
            start_world: clamp_coord_spec(cmd.cursor_world->Some_0),
            current_world: clamp_coord_spec(cmd.cursor_world->Some_0),
            ..v
        }
    } else {
        v
    };
    let v2 = if v1.is_dragging && cmd.left_down && cmd.cursor_world is Some {
        SelView { current_world: clamp_coord_spec(cmd.cursor_world->Some_0), ..v1 }
    } else {
        v1
    };
    let v3 = if v2.is_dragging && cmd.left_just_released {
        release_spec(v2, us, local)
    } else {
        v2
    };
    SelView { selected: alive_filter(v3.selected, us, Seq::empty()), ..v3 }
}

/// Does the store hold a unit with this id?
fn contains_unit_id(units: &Vec<Unit>, id: u64) -> (r: bool)
    ensures
        r == has_unit_id(units@, id),
{
    let n = units.len();
    let mut i: usize = 0;
    while i < n
        invariant
            0 <= i <= n,
            n == units@.len(),
            forall|k: int| 0 <= k < i ==> #[trigger] id_at(units@, k) != id,
        decreases n - i,
    {
        if units[i].id == id {
            assert(id_at(units@, i as int) == id);
            return true;
        }
        i = i + 1;
    }
    false
}

/// Drop from the selection every id whose unit has gone.
pub fn prune_selection(sel: &mut Vec<u64>, units: &Vec<Unit>)
    requires
        ids_distinct(old(sel)@),
    ensures
        final(sel)@ == alive_filter(old(sel)@, units@, Seq::empty()),
        ids_distinct(final(sel)@),
        final(sel)@.len() <= UNIT_CAP,
{
    let n = sel.len();
    let mut out: Vec<u64> = Vec::new();
    proof {
        assert(sel@.subrange(0, n as int) =~= sel@);
    }
    let mut i: usize = 0;
    while i < n
        invariant
            0 <= i <= n,
            n == sel@.len(),
            sel@ == old(sel)@,
            out@.len() <= UNIT_CAP,
            alive_filter(sel@.subrange(i as int, n as int), units@, out@) == alive_filter(
                sel@,
                units@,
                Seq::empty(),
            ),
        decreases n - i,
    {
        let id = sel[i];
        let ghost pre = out@;
        let ghost range = sel@.subrange(i as int, n as int);
        if contains_unit_id(units, id) && out.len() < UNIT_CAP {
            out.push(id);
        }
        proof {
            assert(range[0] == id);
            assert(range.subrange(1, range.len() as int) =~= sel@.subrange(
                i as int + 1,
                n as int,
            ));
        }
        i = i + 1;
    }
    proof {
        assert(sel@.subrange(n as int, n as int) =~= Seq::<u64>::empty());
        lemma_alive_filter_wf(old(sel)@, units@, Seq::empty());
    }
    *sel = out;
}

/// Advance the selection state machine for one host frame of pointer input.
pub fn handle_selection_input(
    selection: &mut SelectionState,
    units: &Vec<Unit>,
    local: PlayerId,
    cmd: &CommandBatch,
)
    requires
        sel_wf(old(selection)@),
        units_wf(units@),
    ensures
        final(selection)@ == selection_step_spec(old(selection)@, units@, local, *cmd),
        sel_wf(final(selection)@),
{
    if cmd.left_just_pressed {
        match cmd.cursor_world {
            Some(pos) => {
                let p = clamp_coord(pos);
                selection.is_dragging = true;
                selection.start_world = p;
                selection.current_world = p;
            },
            None => {},
        }
    }
    if selection.is_dragging && cmd.left_down {
        match cmd.cursor_world {
            Some(pos) => {
                selection.current_world = clamp_coord(pos);
            },
            None => {},
        }
    }
    let ghost v2 = selection@;
    if selection.is_dragging && cmd.left_just_released {
        let sx = selection.start_world.x;
        let sy = selection.start_world.y;
        let cx = selection.current_world.x;
        let cy = selection.current_world.y;
        let minx = if sx <= cx {
            sx
        } else {
            cx
        };
        let maxx = if sx <= cx {
            cx
        } else {
            sx
        };
        let miny = if sy <= cy {
            sy
        } else {
            cy
        };
        let maxy = if sy <= cy {
            cy
        } else {
            sy
        };
        let lo = V2 { x: minx - SELECTION_PAD, y: miny - SELECTION_PAD };
        let hi = V2 { x: maxx + SELECTION_PAD, y: maxy + SELECTION_PAD };

        // Gather the hits in store order.
        let n = units.len();
        let mut hits: Vec<u64> = Vec::new();
        let mut j: usize = 0;
        while j < n
            invariant
                0 <= j <= n,
                n == units@.len(),
                units_wf(units@),
                hits@ + hits_from(units@, local, lo, hi, j as int) == hits_from(
                    units@,
                    local,
                    lo,
                    hi,
                    0,
                ),
            decreases n - j,
        {
            let u = units[j];
            if u.player.0 == local.0 && lo.x <= u.pos.x && u.pos.x <= hi.x && lo.y <= u.pos.y
                && u.pos.y <= hi.y {
                hits.push(u.id);
                proof {
                    assert(hits@ + hits_from(units@, local, lo, hi, j as int + 1) =~= hits_from(
                        units@,
                        local,
                        lo,
                        hi,
                        0,
                    ));
                }
            }
            j = j + 1;
        }
        proof {
            assert(hits@ + hits_from(units@, local, lo, hi, n as int) =~= hits@);
            assert(hits@ == hits_from(units@, local, lo, hi, 0));
        }

        let dx = cx - sx;
        let dy = cy - sy;
        proof {
            crate::fx::lemma_sq_bound(dx as int, 2_000_000_000);
            crate::fx::lemma_sq_bound(dy as int, 2_000_000_000);
        }
        let deltasq: i64 = dx * dx + dy * dy;
        let is_click = deltasq < CLICK_EPS_SQ;

        // The old selection becomes the previous one; a click that hit
        // nothing clears, anything else unions the hits in.
        let mut prev: Vec<u64> = Vec::new();
        let m = selection.selected.len();
        let mut k: usize = 0;
        while k < m
            invariant
                0 <= k <= m,
                m == selection@.selected.len(),
                selection@ == v2,
                prev@ == selection@.selected.subrange(0, k as int),
            decreases m - k,
        {
            let id = selection.selected[k];
            prev.push(id);
            proof {
                assert(prev@ =~= selection@.selected.subrange(0, k as int + 1));
            }
            k = k + 1;
        }
        proof {
            assert(prev@ =~= v2.selected);
        }

        if is_click && hits.len() == 0 {
            selection.selected = Vec::new();
            proof {
                assert(selection@.selected =~= Seq::<u64>::empty());
            }
        } else {
            let h = hits.len();
            proof {
                assert(hits@.subrange(0, h as int) =~= hits@);
            }
            let mut k2: usize = 0;
            while k2 < h
                invariant
                    0 <= k2 <= h,
                    h == hits@.len(),
                    selection@.prev_selected == v2.prev_selected,
                    selection@.is_dragging == v2.is_dragging,
                    selection@.start_world == v2.start_world,
                    selection@.current_world == v2.current_world,
                    selection@.dirty == v2.dirty,
                    add_new(selection@.selected, hits@.subrange(k2 as int, h as int)) == add_new(
                        v2.selected,
                        hits@,
                    ),
                decreases h - k2,
            {
                let id = hits[k2];
                let ghost range = hits@.subrange(k2 as int, h as int);
                if !contains_id(&selection.selected, id) {
                    selection.selected.push(id);
                }
                proof {
                    assert(range[0] == id);
                    assert(range.subrange(1, range.len() as int) =~= hits@.subrange(
                        k2 as int + 1,
                        h as int,
                    ));
                }
                k2 = k2 + 1;
            }
            proof {
                assert(hits@.subrange(h as int, h as int) =~= Seq::<u64>::empty());
                assert(selection@.selected == add_new(v2.selected, hits@));
            }
        }
        selection.prev_selected = prev;
        selection.dirty = true;
        selection.is_dragging = false;
        selection.current_world = selection.start_world;
        proof {
            assert(selection@ == release_spec(v2, units@, local));
            lemma_add_new_distinct(v2.selected, hits@);
            assert(ids_distinct(selection@.selected));
        }
    }
    proof {
        assert(ids_distinct(selection@.selected));
    }
    prune_selection(&mut selection.selected, units);
    proof {
        assert(selection@ == selection_step_spec(old(selection)@, units@, local, *cmd));
    }
}

/// Is `id` among the ids?
fn contains_id(v: &Vec<u64>, id: u64) -> (r: bool)
    ensures
        r == v@.contains(id),
{
    let n = v.len();
    let mut i: usize = 0;
    while i < n
        invariant
            0 <= i <= n,
            n == v@.len(),
            forall|k: int| 0 <= k < i ==> v@[k] != id,
        decreases n - i,
    {
        if v[i] == id {
            return true;
        }
        i = i + 1;
    }
    false
}

/// The first index of `id` in the selection, scanning from `k`.
pub open spec fn first_match(sel: Seq<u64>, id: u64, k: int) -> Option<int>
    decreases sel.len() - k,
{
    if k < 0 || k >= sel.len() {
        None
    } else if sel[k] == id {
        Some(k)
    } else {
        first_match(sel, id, k + 1)
    }
}

/// One unit after a move order at `cursor`: the `k`-th selected unit rallies
/// to the cursor plus the `k`-th formation offset.
pub open spec fn ordered_unit_spec(us: Seq<Unit>, sel: Seq<u64>, cursor: V2, i: int) -> Unit {
    let u = us[i];
    match first_match(sel, u.id, 0) {
        Some(k) => {
            let off = formation_offset_spec(k);
            Unit {
                rally_target: clamp_coord_spec(
                    V2 { x: (cursor.x + off.x) as i64, y: (cursor.y + off.y) as i64 },
                ),
                ..u
            }
        },
        None => u,
    }
}

/// The unit store after a frame's move orders: unchanged unless the right
/// button was pressed with a cursor on the board and a non-empty selection.
pub open spec fn orders_step_spec(
    us: Seq<Unit>,
    sel: Seq<u64>,
    cmd: CommandBatch,
) -> Seq<Unit> {
    if cmd.right_just_pressed && cmd.cursor_world is Some && sel.len() > 0 {
        Seq::new(
            us.len(),
            |i: int|
                ordered_unit_spec(us, sel, clamp_coord_spec(cmd.cursor_world->Some_0), i),
        )
    } else {
        us
    }
}

/// On a right press with a cursor, rally each selected unit to the cursor
/// plus its formation offset, in selection order.
pub fn issue_move_orders(units: &mut Vec<Unit>, selection: &SelectionState, cmd: &CommandBatch)
    requires
        units_wf(old(units)@),
        sel_wf(selection@),
    ensures
        final(units)@ == orders_step_spec(old(units)@, selection@.selected, *cmd),
        units_wf(final(units)@),
{
    if !cmd.right_just_pressed {
        return ;
    }
    let cursor = match cmd.cursor_world {
        Some(c) => clamp_coord(c),
        None => {
            return ;
        },
    };
    if selection.selected.len() == 0 {
        return ;
    }
    let ghost us0 = units@;
    let offsets = compute_formation_offsets(selection.selected.len());
    let n = units.len();
    let mut i: usize = 0;
    while i < n
        invariant
            0 <= i <= n,
            n == units@.len() == us0.len(),
            units_wf(us0),
            sel_wf(selection@),
            in_box(cursor, COORD_LIMIT as int),
            cursor == clamp_coord_spec(cmd.cursor_world->Some_0),
            offsets@.len() == selection@.selected.len(),
            forall|k: int|
                0 <= k < offsets@.len() ==> offsets@[k] == formation_offset_spec(k),
            forall|k: int|
                0 <= k < i ==> units@[k] == ordered_unit_spec(us0, selection@.selected, cursor, k)
                    && crate::units::unit_wf(#[trigger] units@[k]),
            forall|k: int| i <= k < n ==> units@[k] == us0[k],
        decreases n - i,
    {
        proof {
            assert(crate::graph::unit_wf_at(us0, i as int));
        }
        let u = units[i];
        let m = selection.selected.len();
        let mut k: usize = 0;
        let mut fk: usize = m;
        while k < m && fk == m
            invariant
                0 <= k <= m,
                fk <= m,
                m == selection@.selected.len(),
                fk == m ==> first_match(selection@.selected, u.id, k as int) == first_match(
                    selection@.selected,
                    u.id,
                    0,
                ),
                fk < m ==> first_match(selection@.selected, u.id, 0) == Some(fk as int),
            decreases m - k,
        {
            if selection.selected[k] == u.id {
                fk = k;
                proof {
                    assert(first_match(selection@.selected, u.id, k as int) == Some(k as int));
                }
            }
            k = k + 1;
        }
        if fk < m {
            let kk = fk;
            {
                proof {
                    assert(first_match(selection@.selected, u.id, 0) == Some(kk as int));
                }
                let off = offsets[kk];
                proof {
                    crate::formation::lemma_formation_offset_bound(kk as int);
                }
                let rally = clamp_coord(V2 { x: cursor.x + off.x, y: cursor.y + off.y });
                let nu = Unit { rally_target: rally, ..u };
                proof {
                    assert(nu == ordered_unit_spec(us0, selection@.selected, cursor, i as int));
                }
                units.set(i, nu);
            }
        } else {
            proof {
                assert(first_match(selection@.selected, u.id, 0) is None);
                assert(u == ordered_unit_spec(us0, selection@.selected, cursor, i as int));
            }
            units.set(i, u);
        }
        i = i + 1;
    }
    proof {
        assert(units@ =~= orders_step_spec(us0, selection@.selected, *cmd));
    }
}

} // verus!
