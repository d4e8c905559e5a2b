//! Which slots a write plan covers, with which images.

use vstd::prelude::*;

use crate::engine::plan::{
    default_from, for_path, job_for, override_job, overrides_from, planned, repeated_target,
    same_target, target_repeats, ImageFact, ImageFactView, ImageFacts, WriteJobView,
};
use crate::error::ErrorView;
use crate::layout::{
    bank_named, slots_lie_in_their_bank, BankView, LayoutView, SlotAssign, SlotAssignView,
    SlotRefView,
};
use crate::search::{first_where, first_where_is, first_where_props};

verus! {

/// The manifest names an image for a unit of the bank.
pub open spec fn names_image(b: BankView, unit: u32, path: Seq<char>) -> bool {
    unit < b.units && b.slots.dom().contains(unit) && b.slots[unit].image == Some(path)
}

/// The host lists a path, and says first of it that it is a regular file of
/// that length.
pub open spec fn is_file(facts: ImageFacts, path: Seq<char>, len: u64) -> bool {
    exists|k: int|
        0 <= k < facts.entries@.len() && #[trigger] facts.entries@[k].0@ == path
            && facts.entries@[k].1 == ImageFact::File(len) && forall|m: int|
            0 <= m < k ==> #[trigger] facts.entries@[m].0@ != path
}

/// The job writes the file at `path` into unit `unit` of bank `i`: it has the
/// slot's place on the card, its name, and the file's length.
pub open spec fn writes(
    layout: LayoutView,
    facts: ImageFacts,
    j: WriteJobView,
    i: int,
    unit: u32,
    path: Seq<char>,
) -> bool {
    let b = layout.banks[i];
    &&& 0 <= i < layout.banks.len()
    &&& unit < b.units
    &&& j.bank == b.name
    &&& j.unit == unit
    &&& j.image == path
    &&& is_file(facts, path, j.image_len)
    &&& j.extent.offset == b.base + unit * b.slot_size
    &&& j.extent.len == b.slot_size
    &&& b.slots.dom().contains(unit) ==> j.slot_name == b.slots[unit].name
    &&& !b.slots.dom().contains(unit) ==> j.slot_name is None
}

pub(crate) proof fn facts_are_first(facts: ImageFacts, path: Seq<char>)
    ensures
        facts.fact(path) matches ImageFactView::File(n) ==> is_file(facts, path, n),
        forall|n: u64| is_file(facts, path, n) ==> facts.fact(path) == ImageFactView::File(n),
{
    first_where_props(facts.entries@, for_path(path));
    let k = first_where(facts.entries@, for_path(path)) as int;
    if facts.fact(path) is File {
        assert(facts.entries@[k].0@ == path);
        assert forall|m: int| 0 <= m < k implies #[trigger] facts.entries@[m].0@ != path by {
            assert(!for_path(path)(facts.entries@[m]));
        }
        let n = facts.fact(path)->File_0;
        assert(facts.entries@[k].1 == ImageFact::File(n));
    }
    assert forall|n: u64| is_file(facts, path, n) implies facts.fact(path) == ImageFactView::File(
        n,
    ) by {
        let m = choose|m: int|
            0 <= m < facts.entries@.len() && #[trigger] facts.entries@[m].0@ == path
                && facts.entries@[m].1 == ImageFact::File(n) && forall|l: int|
                0 <= l < m ==> #[trigger] facts.entries@[l].0@ != path;
        assert forall|l: int| 0 <= l < m implies !for_path(path)(#[trigger] facts.entries@[l]) by {
            assert(facts.entries@[l].0@ != path);
        }
        first_where_is(facts.entries@, for_path(path), m);
    }
}

proof fn made_job_writes(
    layout: LayoutView,
    facts: ImageFacts,
    i: int,
    unit: u32,
    path: Seq<char>,
    j: WriteJobView,
)
    requires
        layout.addressable(),
        0 <= i < layout.banks.len(),
        unit < layout.banks[i].units,
        job_for(layout, i, unit, path, facts.fact(path)) == Ok::<WriteJobView, ErrorView>(j),
    ensures
        writes(layout, facts, j, i, unit, path),
{
    facts_are_first(facts, path);
    slots_lie_in_their_bank(layout.banks[i], unit as int);
}

/// Place (`i`, `u`) does not come after place (`k`, `v`).
spec fn not_after(i: int, u: int, k: int, v: int) -> bool {
    i < k || (i == k && u <= v)
}

/// Job `k` writes an image that the manifest names.
pub open spec fn from_manifest(
    layout: LayoutView,
    facts: ImageFacts,
    j: WriteJobView,
) -> bool {
    exists|i: int, unit: u32|
        0 <= i < layout.banks.len() && #[trigger] names_image(layout.banks[i], unit, j.image)
            && writes(layout, facts, j, i, unit, j.image)
}

#[verifier::rlimit(40)]
proof fn default_jobs_cover(
    layout: LayoutView,
    facts: ImageFacts,
    i: int,
    u: int,
    acc: Seq<WriteJobView>,
    jobs: Seq<WriteJobView>,
)
    requires
        layout.addressable(),
        0 <= i,
        0 <= u,
        default_from(layout, facts, i, u, acc) == Ok::<Seq<WriteJobView>, ErrorView>(jobs),
    ensures
        acc.len() <= jobs.len(),
        forall|k: int| 0 <= k < acc.len() ==> #[trigger] jobs[k] == acc[k],
        forall|k: int| acc.len() <= k < jobs.len() ==> from_manifest(layout, facts, #[trigger] jobs[k]),
        forall|k: int, unit: u32, path: Seq<char>|
            0 <= k < layout.banks.len() && not_after(i, u, k, unit as int) && #[trigger] names_image(
                layout.banks[k],
                unit,
                path,
            ) ==> exists|m: int|
                acc.len() <= m < jobs.len() && writes(layout, facts, #[trigger] jobs[m], k, unit, path),
    decreases layout.banks.len() - i, layout.banks[i].units - u,
{
    if i < layout.banks.len() {
        let b = layout.banks[i];
        if u >= b.units {
            default_jobs_cover(layout, facts, i + 1, 0, acc, jobs);
        } else {
            let unit = u as u32;
            match b.image_of(unit) {
                None => {
                    default_jobs_cover(layout, facts, i, u + 1, acc, jobs);
                    assert forall|k: int, v: u32, path: Seq<char>|
                        0 <= k < layout.banks.len() && not_after(i, u, k, v as int)
                            && #[trigger] names_image(layout.banks[k], v, path) implies exists|m: int|
                        acc.len() <= m < jobs.len() && writes(layout, facts, #[trigger] jobs[m], k, v, path) by {
                        assert(not_after(i, u + 1, k, v as int));
                    }
                },
                Some(image) => {
                    let j = job_for(layout, i, unit, image, facts.fact(image))->Ok_0;
                    default_jobs_cover(layout, facts, i, u + 1, acc.push(j), jobs);
                    made_job_writes(layout, facts, i, unit, image, j);
                    let at = acc.len() as int;
                    assert(jobs[at] == acc.push(j)[at]);
                    assert(names_image(layout.banks[i], unit, jobs[at].image));
                    assert(from_manifest(layout, facts, jobs[at]));
                    assert forall|k: int| 0 <= k < acc.len() implies #[trigger] jobs[k] == acc[k] by {
                        assert(jobs[k] == acc.push(j)[k]);
                    }
                    assert forall|k: int, v: u32, path: Seq<char>|
                        0 <= k < layout.banks.len() && not_after(i, u, k, v as int)
                            && #[trigger] names_image(layout.banks[k], v, path) implies exists|m: int|
                        acc.len() <= m < jobs.len() && writes(layout, facts, #[trigger] jobs[m], k, v, path) by {
                        if k == i && v == unit {
                            assert(path == image);
                            assert(writes(layout, facts, jobs[at], k, v, path));
                        } else {
                            assert(not_after(i, u + 1, k, v as int));
                        }
                    }
                },
            }
        }
    }
}

proof fn nothing_repeats(jobs: Seq<WriteJobView>, i: int, k: int, m: int)
    requires
        0 <= i <= k < m < jobs.len(),
        repeated_target(jobs, i) is None,
    ensures
        jobs[k].bank != jobs[m].bank || jobs[k].unit != jobs[m].unit,
    decreases jobs.len() - i,
{
    if i < k {
        nothing_repeats(jobs, i + 1, k, m);
    } else {
        if same_target(jobs[m], jobs[k]) {
            assert(target_repeats(jobs, k));
        }
    }
}

/// A plan without overrides has a job for every image that the manifest names,
/// in whatever bank and unit, and no job but those; no slot has two.
pub proof fn plans_cover_the_manifest(
    layout: LayoutView,
    facts: ImageFacts,
    overrides: Seq<SlotAssign>,
    jobs: Seq<WriteJobView>,
)
    requires
        layout.addressable(),
        overrides.len() == 0,
        planned(layout, overrides, facts) == Ok::<Seq<WriteJobView>, ErrorView>(jobs),
    ensures
        jobs.len() > 0,
        forall|i: int, unit: u32, path: Seq<char>|
            0 <= i < layout.banks.len() && #[trigger] names_image(layout.banks[i], unit, path)
                ==> exists|k: int|
                0 <= k < jobs.len() && writes(layout, facts, #[trigger] jobs[k], i, unit, path),
        forall|k: int| 0 <= k < jobs.len() ==> from_manifest(layout, facts, #[trigger] jobs[k]),
        forall|k: int, m: int|
            0 <= k < m < jobs.len() ==> (#[trigger] jobs[k]).bank != (#[trigger] jobs[m]).bank
                || jobs[k].unit != jobs[m].unit,
{
    default_jobs_cover(layout, facts, 0, 0, Seq::empty(), jobs);
    assert forall|i: int, unit: u32, path: Seq<char>|
        0 <= i < layout.banks.len() && #[trigger] names_image(layout.banks[i], unit, path) implies exists|
        k: int,
    |
        0 <= k < jobs.len() && writes(layout, facts, #[trigger] jobs[k], i, unit, path) by {
        assert(not_after(0, 0, i, unit as int));
    }
    assert forall|k: int, m: int| 0 <= k < m < jobs.len() implies (#[trigger] jobs[k]).bank != (
    #[trigger] jobs[m]).bank || jobs[k].unit != jobs[m].unit by {
        nothing_repeats(jobs, 0, k, m);
    }
}


/// A slot reference means a unit of bank `i`: the bank that it names, or the
/// only one there is.
pub open spec fn points_at(layout: LayoutView, r: SlotRefView, i: int) -> bool {
    &&& 0 <= i < layout.banks.len()
    &&& r.unit < layout.banks[i].units
    &&& match r.bank {
        Some(name) => layout.banks[i].name == name && forall|m: int|
            0 <= m < i ==> (#[trigger] layout.banks[m]).name != name,
        None => layout.banks.len() == 1,
    }
}

/// A slot reference resolves exactly when it means a unit of some bank, and to
/// that bank and unit.
pub proof fn references_resolve_to_their_slot(layout: LayoutView, r: SlotRefView)
    ensures
        layout.resolved(r) is Ok <==> exists|i: int| points_at(layout, r, i),
        forall|i: int|
            #[trigger] points_at(layout, r, i) ==> layout.resolved(r) == Ok::<
                (int, u32),
                ErrorView,
            >((i, r.unit)),
{
    if r.bank is Some {
        let name = r.bank->0;
        first_where_props(layout.banks, bank_named(name));
        let k = layout.bank_index(name) as int;
        assert forall|m: int| 0 <= m < k implies (#[trigger] layout.banks[m]).name != name by {
            assert(!bank_named(name)(layout.banks[m]));
        }
        if k < layout.banks.len() {
            assert(bank_named(name)(layout.banks[k]));
        }
        assert forall|i: int| #[trigger] points_at(layout, r, i) implies i == k by {
            assert forall|m: int| 0 <= m < i implies !bank_named(name)(
                #[trigger] layout.banks[m],
            ) by {
                assert(layout.banks[m].name != name);
            }
            first_where_is(layout.banks, bank_named(name), i);
        }
        if layout.resolved(r) is Ok {
            assert(points_at(layout, r, k));
        }
    } else {
        if layout.resolved(r) is Ok {
            assert(points_at(layout, r, 0));
        }
    }
}

/// The image that an override puts into a unit of bank `i`: the one it gives,
/// or else the manifest's.
pub open spec fn gives_image(layout: LayoutView, a: SlotAssignView, i: int, path: Seq<char>) -> bool {
    match a.image {
        Some(p) => p == path,
        None => names_image(layout.banks[i], a.slot.unit, path),
    }
}

/// The override means a slot, has an image for it, and that image is a file.
pub open spec fn can_be_written(layout: LayoutView, facts: ImageFacts, a: SlotAssignView) -> bool {
    exists|i: int, path: Seq<char>, n: u64|
        #[trigger] points_at(layout, a.slot, i) && #[trigger] gives_image(layout, a, i, path)
            && #[trigger] is_file(facts, path, n)
}

/// The job writes what the override asks for.
pub open spec fn obeys(
    layout: LayoutView,
    facts: ImageFacts,
    a: SlotAssignView,
    j: WriteJobView,
) -> bool {
    exists|i: int|
        #[trigger] points_at(layout, a.slot, i) && gives_image(layout, a, i, j.image) && writes(
            layout,
            facts,
            j,
            i,
            a.slot.unit,
            j.image,
        )
}

proof fn override_jobs_obey(layout: LayoutView, facts: ImageFacts, a: SlotAssignView)
    requires
        layout.addressable(),
    ensures
        override_job(layout, facts, a) is Ok <==> can_be_written(layout, facts, a),
        override_job(layout, facts, a) matches Ok(j) ==> obeys(layout, facts, a, j),
{
    references_resolve_to_their_slot(layout, a.slot);
    if override_job(layout, facts, a) is Ok {
        let j = override_job(layout, facts, a)->Ok_0;
        let i = layout.resolved(a.slot)->Ok_0.0;
        let w = choose|w: int| points_at(layout, a.slot, w);
        assert(points_at(layout, a.slot, w));
        assert(w == i);
        assert(gives_image(layout, a, i, j.image));
        made_job_writes(layout, facts, i, a.slot.unit, j.image, j);
        assert(is_file(facts, j.image, j.image_len));
    }
    if can_be_written(layout, facts, a) {
        let (i, path, n) = choose|i: int, path: Seq<char>, n: u64|
            #[trigger] points_at(layout, a.slot, i) && #[trigger] gives_image(layout, a, i, path)
                && #[trigger] is_file(facts, path, n);
        facts_are_first(facts, path);
        assert(layout.resolved(a.slot) == Ok::<(int, u32), ErrorView>((i, a.slot.unit)));
        assert(facts.fact(path) == ImageFactView::File(n));
    }
}

proof fn overrides_make_jobs(
    layout: LayoutView,
    facts: ImageFacts,
    overrides: Seq<SlotAssign>,
    i: int,
    acc: Seq<WriteJobView>,
)
    requires
        layout.addressable(),
        0 <= i <= overrides.len(),
        acc.len() == i,
        forall|k: int| 0 <= k < i ==> obeys(layout, facts, (#[trigger] overrides[k])@, acc[k]),
    ensures
        overrides_from(layout, facts, overrides, i, acc) is Ok <==> forall|k: int|
            i <= k < overrides.len() ==> can_be_written(layout, facts, (#[trigger] overrides[k])@),
        overrides_from(layout, facts, overrides, i, acc) matches Ok(jobs) ==> jobs.len()
            == overrides.len() && forall|k: int|
            0 <= k < jobs.len() ==> obeys(layout, facts, (#[trigger] overrides[k])@, jobs[k]),
    decreases overrides.len() - i,
{
    if i < overrides.len() {
        override_jobs_obey(layout, facts, overrides[i]@);
        match override_job(layout, facts, overrides[i]@) {
            Ok(j) => {
                overrides_make_jobs(layout, facts, overrides, i + 1, acc.push(j));
            },
            Err(e) => {},
        }
    }
}

proof fn distinct_targets_pass(jobs: Seq<WriteJobView>, i: int)
    requires
        0 <= i,
        forall|k: int, m: int|
            0 <= k < m < jobs.len() ==> (#[trigger] jobs[k]).bank != (#[trigger] jobs[m]).bank
                || jobs[k].unit != jobs[m].unit,
    ensures
        repeated_target(jobs, i) is None,
    decreases jobs.len() - i,
{
    if i < jobs.len() {
        distinct_targets_pass(jobs, i + 1);
    }
}

/// Two overrides mean one slot.
pub open spec fn same_slot(layout: LayoutView, a: SlotAssignView, b: SlotAssignView) -> bool {
    a.slot.unit == b.slot.unit && exists|i: int| #[trigger]
        points_at(layout, a.slot, i) && points_at(layout, b.slot, i)
}

proof fn obeying_jobs_share_slots(
    layout: LayoutView,
    facts: ImageFacts,
    a: SlotAssignView,
    b: SlotAssignView,
    x: WriteJobView,
    y: WriteJobView,
)
    requires
        obeys(layout, facts, a, x),
        obeys(layout, facts, b, y),
    ensures
        same_target(x, y) <==> same_slot(layout, a, b),
{
    let i = choose|i: int| #[trigger]
        points_at(layout, a.slot, i) && gives_image(layout, a, i, x.image) && writes(
            layout,
            facts,
            x,
            i,
            a.slot.unit,
            x.image,
        );
    let k = choose|k: int| #[trigger]
        points_at(layout, b.slot, k) && gives_image(layout, b, k, y.image) && writes(
            layout,
            facts,
            y,
            k,
            b.slot.unit,
            y.image,
        );
    references_resolve_to_their_slot(layout, a.slot);
    references_resolve_to_their_slot(layout, b.slot);
    if same_target(x, y) {
        // Whether named or alone, each bank is the first of its name.
        if i < k {
            assert(layout.banks[i].name == layout.banks[k].name);
            assert(false);
        }
        if k < i {
            assert(layout.banks[i].name == layout.banks[k].name);
            assert(false);
        }
        assert(points_at(layout, b.slot, i));
    }
    if same_slot(layout, a, b) {
        let m = choose|m: int| #[trigger]
            points_at(layout, a.slot, m) && points_at(layout, b.slot, m);
        assert(m == i && m == k);
    }
}

/// A plan of overrides has one job for each of them, in their order: it writes
/// the slot that the override means, with the image that it gives or else the
/// manifest's. Such a plan is made exactly when every override can be written
/// and no two mean one slot.
#[verifier::rlimit(40)]
pub proof fn plans_follow_the_overrides(
    layout: LayoutView,
    facts: ImageFacts,
    overrides: Seq<SlotAssign>,
)
    requires
        layout.addressable(),
        overrides.len() > 0,
    ensures
        planned(layout, overrides, facts) is Ok <==> {
            &&& forall|k: int|
                0 <= k < overrides.len() ==> can_be_written(
                    layout,
                    facts,
                    (#[trigger] overrides[k])@,
                )
            &&& forall|k: int, m: int|
                0 <= k < m < overrides.len() ==> !same_slot(
                    layout,
                    (#[trigger] overrides[k])@,
                    (#[trigger] overrides[m])@,
                )
        },
        planned(layout, overrides, facts) matches Ok(jobs) ==> jobs.len() == overrides.len()
            && forall|k: int|
            0 <= k < jobs.len() ==> obeys(layout, facts, (#[trigger] overrides[k])@, jobs[k]),
{
    overrides_make_jobs(layout, facts, overrides, 0, Seq::empty());
    match overrides_from(layout, facts, overrides, 0, Seq::empty()) {
        Err(e) => {},
        Ok(jobs) => {
            assert forall|k: int, m: int| 0 <= k < m < jobs.len() implies same_target(
                #[trigger] jobs[k],
                #[trigger] jobs[m],
            ) == same_slot(layout, overrides[k]@, overrides[m]@) by {
                obeying_jobs_share_slots(
                    layout,
                    facts,
                    overrides[k]@,
                    overrides[m]@,
                    jobs[k],
                    jobs[m],
                );
            }
            if repeated_target(jobs, 0) is None {
                assert forall|k: int, m: int| 0 <= k < m < overrides.len() implies !same_slot(
                    layout,
                    (#[trigger] overrides[k])@,
                    (#[trigger] overrides[m])@,
                ) by {
                    nothing_repeats(jobs, 0, k, m);
                    assert(!same_target(jobs[k], jobs[m]));
                }
            } else {
                if forall|k: int, m: int|
                    0 <= k < m < overrides.len() ==> !same_slot(
                        layout,
                        (#[trigger] overrides[k])@,
                        (#[trigger] overrides[m])@,
                    ) {
                    assert forall|k: int, m: int| 0 <= k < m < jobs.len() implies (
                    #[trigger] jobs[k]).bank != (#[trigger] jobs[m]).bank || jobs[k].unit
                        != jobs[m].unit by {
                        assert(!same_slot(layout, overrides[k]@, overrides[m]@));
                        assert(!same_target(jobs[k], jobs[m]));
                    }
                    distinct_targets_pass(jobs, 0);
                }
            }
        },
    }
}

/// The job writes a slot at place (`i`, `u`) or behind it.
spec fn placed_from(
    layout: LayoutView,
    facts: ImageFacts,
    j: WriteJobView,
    i: int,
    u: int,
) -> bool {
    exists|x: int, v: u32|
        not_after(i, u, x, v as int) && #[trigger] writes(layout, facts, j, x, v, j.image)
}

#[verifier::rlimit(40)]
proof fn default_jobs_differ(
    layout: LayoutView,
    facts: ImageFacts,
    i: int,
    u: int,
    acc: Seq<WriteJobView>,
    jobs: Seq<WriteJobView>,
)
    requires
        layout.addressable(),
        0 <= i,
        0 <= u,
        forall|k: int, m: int|
            0 <= k < m < layout.banks.len() ==> (#[trigger] layout.banks[k]).name != (
            #[trigger] layout.banks[m]).name,
        default_from(layout, facts, i, u, acc) == Ok::<Seq<WriteJobView>, ErrorView>(jobs),
    ensures
        acc.len() <= jobs.len(),
        forall|k: int| 0 <= k < acc.len() ==> #[trigger] jobs[k] == acc[k],
        forall|k: int|
            acc.len() <= k < jobs.len() ==> placed_from(
                layout,
                facts,
                #[trigger] jobs[k],
                i,
                u,
            ),
        forall|k: int, m: int|
            acc.len() <= k < m < jobs.len() ==> (#[trigger] jobs[k]).bank != (
            #[trigger] jobs[m]).bank || jobs[k].unit != jobs[m].unit,
    decreases layout.banks.len() - i, layout.banks[i].units - u,
{
    if i < layout.banks.len() {
        let b = layout.banks[i];
        if u >= b.units {
            default_jobs_differ(layout, facts, i + 1, 0, acc, jobs);
            assert forall|k: int| acc.len() <= k < jobs.len() implies placed_from(
                layout,
                facts,
                #[trigger] jobs[k],
                i,
                u,
            ) by {
                let (x, v) = choose|x: int, v: u32|
                    not_after(i + 1, 0, x, v as int) && #[trigger] writes(
                        layout,
                        facts,
                        jobs[k],
                        x,
                        v,
                        jobs[k].image,
                    );
                assert(not_after(i, u, x, v as int));
            }
        } else {
            let unit = u as u32;
            let next = match b.image_of(unit) {
                None => acc,
                Some(image) => acc.push(job_for(layout, i, unit, image, facts.fact(image))->Ok_0),
            };
            default_jobs_differ(layout, facts, i, u + 1, next, jobs);
            assert forall|k: int| 0 <= k < acc.len() implies #[trigger] jobs[k] == acc[k] by {
                assert(jobs[k] == next[k]);
            }
            if b.image_of(unit) is Some {
                let image = b.image_of(unit)->0;
                let at = acc.len() as int;
                assert(jobs[at] == next[at]);
                made_job_writes(layout, facts, i, unit, image, jobs[at]);
                assert(not_after(i, u, i, unit as int));
            }
            assert forall|k: int| acc.len() <= k < jobs.len() implies placed_from(
                layout,
                facts,
                #[trigger] jobs[k],
                i,
                u,
            ) by {
                if k >= next.len() {
                    let (x, v) = choose|x: int, v: u32|
                        not_after(i, u + 1, x, v as int) && #[trigger] writes(
                            layout,
                            facts,
                            jobs[k],
                            x,
                            v,
                            jobs[k].image,
                        );
                    assert(not_after(i, u, x, v as int));
                }
            }
            assert forall|k: int, m: int| acc.len() <= k < m < jobs.len() implies (
            #[trigger] jobs[k]).bank != (#[trigger] jobs[m]).bank || jobs[k].unit != jobs[m].unit by {
                if k < next.len() {
                    let (x, v) = choose|x: int, v: u32|
                        not_after(i, u + 1, x, v as int) && #[trigger] writes(
                            layout,
                            facts,
                            jobs[m],
                            x,
                            v,
                            jobs[m].image,
                        );
                    assert(i < x || unit < v);
                }
            }
        }
    }
}

proof fn default_jobs_succeed(
    layout: LayoutView,
    facts: ImageFacts,
    i: int,
    u: int,
    acc: Seq<WriteJobView>,
)
    requires
        0 <= i,
        0 <= u,
        forall|k: int, unit: u32, path: Seq<char>|
            0 <= k < layout.banks.len() && #[trigger] names_image(layout.banks[k], unit, path)
                ==> exists|n: u64| is_file(facts, path, n),
    ensures
        default_from(layout, facts, i, u, acc) is Ok,
    decreases layout.banks.len() - i, layout.banks[i].units - u,
{
    if i < layout.banks.len() {
        if u >= layout.banks[i].units {
            default_jobs_succeed(layout, facts, i + 1, 0, acc);
        } else {
            let unit = u as u32;
            match layout.banks[i].image_of(unit) {
                None => {
                    default_jobs_succeed(layout, facts, i, u + 1, acc);
                },
                Some(image) => {
                    assert(names_image(layout.banks[i], unit, image));
                    facts_are_first(facts, image);
                    let j = job_for(layout, i, unit, image, facts.fact(image))->Ok_0;
                    default_jobs_succeed(layout, facts, i, u + 1, acc.push(j));
                },
            }
        }
    }
}

/// A plan without overrides is made exactly when the manifest names an image
/// and every image that it names is a file.
#[verifier::rlimit(40)]
pub proof fn plans_are_made_of_files(
    layout: LayoutView,
    facts: ImageFacts,
    overrides: Seq<SlotAssign>,
)
    requires
        layout.addressable(),
        overrides.len() == 0,
        forall|k: int, m: int|
            0 <= k < m < layout.banks.len() ==> (#[trigger] layout.banks[k]).name != (
            #[trigger] layout.banks[m]).name,
    ensures
        planned(layout, overrides, facts) is Ok <==> {
            &&& exists|i: int, unit: u32, path: Seq<char>|
                0 <= i < layout.banks.len() && #[trigger] names_image(layout.banks[i], unit, path)
            &&& forall|i: int, unit: u32, path: Seq<char>|
                0 <= i < layout.banks.len() && #[trigger] names_image(layout.banks[i], unit, path)
                    ==> exists|n: u64| is_file(facts, path, n)
        },
{
    if planned(layout, overrides, facts) is Ok {
        let jobs = planned(layout, overrides, facts)->Ok_0;
        plans_cover_the_manifest(layout, facts, overrides, jobs);
        assert(from_manifest(layout, facts, jobs[0]));
        assert forall|i: int, unit: u32, path: Seq<char>|
            0 <= i < layout.banks.len() && #[trigger] names_image(layout.banks[i], unit, path) implies exists|
            n: u64,
        | is_file(facts, path, n) by {
            let k = choose|k: int|
                0 <= k < jobs.len() && writes(layout, facts, #[trigger] jobs[k], i, unit, path);
            assert(is_file(facts, path, jobs[k].image_len));
        }
    }
    if {
        &&& exists|i: int, unit: u32, path: Seq<char>|
            0 <= i < layout.banks.len() && #[trigger] names_image(layout.banks[i], unit, path)
        &&& forall|i: int, unit: u32, path: Seq<char>|
            0 <= i < layout.banks.len() && #[trigger] names_image(layout.banks[i], unit, path)
                ==> exists|n: u64| is_file(facts, path, n)
    } {
        default_jobs_succeed(layout, facts, 0, 0, Seq::empty());
        let jobs = default_from(layout, facts, 0, 0, Seq::empty())->Ok_0;
        default_jobs_cover(layout, facts, 0, 0, Seq::empty(), jobs);
        default_jobs_differ(layout, facts, 0, 0, Seq::empty(), jobs);
        let (i, unit, path) = choose|i: int, unit: u32, path: Seq<char>|
            0 <= i < layout.banks.len() && #[trigger] names_image(layout.banks[i], unit, path);
        assert(not_after(0, 0, i, unit as int));
        assert(jobs.len() > 0);
        distinct_targets_pass(jobs, 0);
    }
}

} // verus!
