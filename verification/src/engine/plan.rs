//! Planning: from manifest slots and overrides to write jobs.

use vstd::prelude::*;
use vstd::string::*;

use crate::error::{Error, ErrorView, Result};
use crate::events::{Event, EventView, OpKind, PlanOp, PlanOpView, EVENT_SCHEMA_VERSION};
use crate::layout::{
    slots_lie_in_their_bank, BankView, Extent, Layout, LayoutView, SlotAssign, SlotAssignView,
};
use crate::search::{first_where, first_where_is};
use crate::text::{
    alnum_here, cat2, cat3, cat4, cat5, chars_of, dec, dec_text, is_alnum, lowercase,
    lowercase_text, opt_text, push_text, same_text, texts,
};
use crate::units::{parse_size, size_value};

verus! {

pub const DEFAULT_CHUNK_SIZE: usize = 8388608;

#[derive(Debug, Clone, Copy)]
pub struct EngineOpts {
    pub chunk_size: usize,
    /// Re-read and compare after writing.
    pub verify: bool,
    /// Upgrade the canonical-size warning to an error.
    pub strict_size: bool,
}

impl Default for EngineOpts {
    fn default() -> (r: EngineOpts)
        ensures
            r.chunk_size == DEFAULT_CHUNK_SIZE,
            !r.verify,
            !r.strict_size,
    {
        EngineOpts { chunk_size: DEFAULT_CHUNK_SIZE, verify: false, strict_size: false }
    }
}

/// One slot to write from an image file.
#[derive(Debug)]
pub struct WriteJob {
    pub bank: String,
    pub unit: u32,
    pub slot_name: Option<String>,
    pub image: String,
    pub image_len: u64,
    pub extent: Extent,
}

pub struct WriteJobView {
    pub bank: Seq<char>,
    pub unit: u32,
    pub slot_name: Option<Seq<char>>,
    pub image: Seq<char>,
    pub image_len: u64,
    pub extent: Extent,
}

impl View for WriteJob {
    type V = WriteJobView;

    open spec fn view(&self) -> WriteJobView {
        WriteJobView {
            bank: self.bank@,
            unit: self.unit,
            slot_name: opt_text(self.slot_name),
            image: self.image@,
            image_len: self.image_len,
            extent: self.extent,
        }
    }
}

pub open spec fn job_views(jobs: Seq<WriteJob>) -> Seq<WriteJobView> {
    jobs.map_values(|j: WriteJob| j@)
}

/// One slot to extract, with its length already resolved, so that a batch can
/// announce its byte total up front.
#[derive(Debug)]
pub struct ReadJob {
    pub bank_idx: usize,
    pub unit: u32,
    pub length: u64,
    pub out_path: String,
}

/// What the host says of an image path.
#[derive(Debug)]
pub enum ImageFact {
    /// A regular file of that length.
    File(u64),
    /// Something else of that length, such as a directory.
    Other(u64),
    /// Not accessible, and why.
    Missing(String),
}

pub enum ImageFactView {
    File(u64),
    Other(u64),
    Missing(Seq<char>),
}

impl View for ImageFact {
    type V = ImageFactView;

    open spec fn view(&self) -> ImageFactView {
        match self {
            ImageFact::File(n) => ImageFactView::File(*n),
            ImageFact::Other(n) => ImageFactView::Other(*n),
            ImageFact::Missing(m) => ImageFactView::Missing(m@),
        }
    }
}

/// What the host says of image paths, path by path.
#[derive(Debug)]
pub struct ImageFacts {
    pub entries: Vec<(String, ImageFact)>,
}

pub open spec fn for_path(path: Seq<char>) -> spec_fn((String, ImageFact)) -> bool {
    |e: (String, ImageFact)| e.0@ == path
}

impl ImageFacts {
    /// The first fact of a path; a path that is not listed counts as missing.
    pub open spec fn fact(self, path: Seq<char>) -> ImageFactView {
        let k = first_where(self.entries@, for_path(path)) as int;
        if k < self.entries@.len() {
            self.entries@[k].1@
        } else {
            ImageFactView::Missing(Seq::empty())
        }
    }

    fn position(&self, path: &str) -> (k: usize)
        ensures
            k == first_where(self.entries@, for_path(path@)),
            k <= self.entries@.len(),
    {
        let n: usize = self.entries.len();
        let mut i: usize = 0;
        while i < n && !same_text(&self.entries[i].0, path)
            invariant
                n == self.entries@.len(),
                i <= n,
                forall|j: int| 0 <= j < i ==> !for_path(path@)(#[trigger] self.entries@[j]),
            decreases n - i,
        {
            i = i + 1;
        }
        proof {
            first_where_is(self.entries@, for_path(path@), i as int);
        }
        i
    }

    /// What the host says of a path.
    pub fn of(&self, path: &str) -> (r: ImageFact)
        ensures
            r@ == self.fact(path@),
    {
        let k: usize = self.position(path);
        if k < self.entries.len() {
            match &self.entries[k].1 {
                ImageFact::File(n) => ImageFact::File(*n),
                ImageFact::Other(n) => ImageFact::Other(*n),
                ImageFact::Missing(m) => ImageFact::Missing(m.clone()),
            }
        } else {
            ImageFact::Missing(String::new())
        }
    }
}

// ---------------------------------------------------------------------------
// Write jobs
// ---------------------------------------------------------------------------

/// The job that writes an image into a slot, given what the host says of it.
pub open spec fn job_for(
    layout: LayoutView,
    idx: int,
    unit: u32,
    image: Seq<char>,
    fact: ImageFactView,
) -> std::result::Result<WriteJobView, ErrorView> {
    match fact {
        ImageFactView::Missing(said) => Err(
            ErrorView::Validation("cannot open image "@ + image + ": "@ + said),
        ),
        ImageFactView::Other(_) => Err(
            ErrorView::Validation("image "@ + image + " is not a regular file"@),
        ),
        ImageFactView::File(image_len) => Ok(
            WriteJobView {
                bank: layout.banks[idx].name,
                unit,
                slot_name: layout.banks[idx].name_of(unit),
                image,
                image_len,
                extent: layout.slot_extent(idx, unit as int),
            },
        ),
    }
}

/// Jobs for the manifest's images, bank by bank and unit by unit from place
/// (`i`, `u`) on, behind `acc`.
pub open spec fn default_from(
    layout: LayoutView,
    facts: ImageFacts,
    i: int,
    u: int,
    acc: Seq<WriteJobView>,
) -> std::result::Result<Seq<WriteJobView>, ErrorView>
    decreases layout.banks.len() - i, layout.banks[i].units - u,
{
    if i < 0 || i >= layout.banks.len() || u < 0 {
        Ok(acc)
    } else if u >= layout.banks[i].units {
        default_from(layout, facts, i + 1, 0, acc)
    } else {
        match layout.banks[i].image_of(u as u32) {
            None => default_from(layout, facts, i, u + 1, acc),
            Some(image) => match job_for(layout, i, u as u32, image, facts.fact(image)) {
                Ok(job) => default_from(layout, facts, i, u + 1, acc.push(job)),
                Err(e) => Err(e),
            },
        }
    }
}

/// The job of one override.
pub open spec fn override_job(
    layout: LayoutView,
    facts: ImageFacts,
    assign: SlotAssignView,
) -> std::result::Result<WriteJobView, ErrorView> {
    match layout.resolved(assign.slot) {
        Err(e) => Err(e),
        Ok((idx, unit)) => {
            let image = if assign.image is Some {
                assign.image
            } else {
                layout.banks[idx].image_of(unit)
            };
            match image {
                None => Err(
                    ErrorView::Validation(
                        "slot "@ + assign.slot.text()
                            + " has no image in the manifest; use --slot "@ + assign.slot.text()
                            + "=<image>"@,
                    ),
                ),
                Some(path) => job_for(layout, idx, unit, path, facts.fact(path)),
            }
        },
    }
}

/// Jobs for the overrides from `i` on, behind `acc`.
pub open spec fn overrides_from(
    layout: LayoutView,
    facts: ImageFacts,
    overrides: Seq<SlotAssign>,
    i: int,
    acc: Seq<WriteJobView>,
) -> std::result::Result<Seq<WriteJobView>, ErrorView>
    decreases overrides.len() - i,
{
    if i < 0 || i >= overrides.len() {
        Ok(acc)
    } else {
        match override_job(layout, facts, overrides[i]@) {
            Ok(job) => overrides_from(layout, facts, overrides, i + 1, acc.push(job)),
            Err(e) => Err(e),
        }
    }
}

pub open spec fn same_target(a: WriteJobView, b: WriteJobView) -> bool {
    a.bank == b.bank && a.unit == b.unit
}

/// A later job has the slot of job `i`.
pub open spec fn target_repeats(jobs: Seq<WriteJobView>, i: int) -> bool {
    exists|j: int| i < j < jobs.len() && same_target(#[trigger] jobs[j], jobs[i])
}

/// The first job from `i` on whose slot a later job repeats.
pub open spec fn repeated_target(jobs: Seq<WriteJobView>, i: int) -> Option<WriteJobView>
    decreases jobs.len() - i,
{
    if i < 0 || i >= jobs.len() {
        None
    } else if target_repeats(jobs, i) {
        Some(jobs[i])
    } else {
        repeated_target(jobs, i + 1)
    }
}

/// The write jobs of a layout: with no overrides every manifest slot that names
/// an image, else the named slots alone; no slot twice.
pub open spec fn planned(
    layout: LayoutView,
    overrides: Seq<SlotAssign>,
    facts: ImageFacts,
) -> std::result::Result<Seq<WriteJobView>, ErrorView> {
    let jobs = if overrides.len() == 0 {
        default_from(layout, facts, 0, 0, Seq::empty())
    } else {
        overrides_from(layout, facts, overrides, 0, Seq::empty())
    };
    match jobs {
        Err(e) => Err(e),
        Ok(js) => if js.len() == 0 && overrides.len() == 0 {
            Err(
                ErrorView::Validation(
                    "manifest names no images and no --slot overrides were given"@,
                ),
            )
        } else {
            match repeated_target(js, 0) {
                Some(j) => Err(
                    ErrorView::Validation(
                        "slot "@ + j.bank + ":"@ + dec(j.unit as nat)
                            + " is named more than once"@,
                    ),
                ),
                None => Ok(js),
            }
        },
    }
}

fn make_job(layout: &Layout, idx: usize, unit: u32, image: String, facts: &ImageFacts) -> (r: Result<
    WriteJob,
>)
    requires
        layout@.addressable(),
        idx < layout.banks@.len(),
        unit < layout@.banks[idx as int].units,
    ensures
        match r {
            Ok(j) => job_for(layout@, idx as int, unit, image@, facts.fact(image@)) == Ok::<
                WriteJobView,
                ErrorView,
            >(j@),
            Err(e) => job_for(layout@, idx as int, unit, image@, facts.fact(image@)) == Err::<
                WriteJobView,
                ErrorView,
            >(e@),
        },
{
    let bank = &layout.banks[idx];
    assert(layout@.banks[idx as int] == bank@);
    proof {
        slots_lie_in_their_bank(bank@, unit as int);
    }
    match facts.of(&image) {
        ImageFact::Missing(said) => Err(
            Error::Validation(cat4("cannot open image ", &image, ": ", &said)),
        ),
        ImageFact::Other(_) => Err(
            Error::Validation(cat3("image ", &image, " is not a regular file")),
        ),
        ImageFact::File(image_len) => {
            let slot_name = bank.slot_name(unit);
            Ok(
                WriteJob {
                    bank: bank.name.clone(),
                    unit,
                    slot_name,
                    image,
                    image_len,
                    extent: layout.slot_extent(idx, unit),
                },
            )
        },
    }
}

fn default_jobs(layout: &Layout, facts: &ImageFacts) -> (r: Result<Vec<WriteJob>>)
    requires
        layout@.addressable(),
    ensures
        match r {
            Ok(jobs) => default_from(layout@, *facts, 0, 0, Seq::empty()) == Ok::<
                Seq<WriteJobView>,
                ErrorView,
            >(job_views(jobs@)),
            Err(e) => default_from(layout@, *facts, 0, 0, Seq::empty()) == Err::<
                Seq<WriteJobView>,
                ErrorView,
            >(e@),
        },
{
    let mut jobs: Vec<WriteJob> = Vec::new();
    assert(job_views(jobs@) =~= Seq::<WriteJobView>::empty());
    for i in 0..layout.banks.len()
        invariant
            layout@.addressable(),
            default_from(layout@, *facts, 0, 0, Seq::empty()) == default_from(
                layout@,
                *facts,
                i as int,
                0,
                job_views(jobs@),
            ),
    {
        let bank = &layout.banks[i];
        assert(layout@.banks[i as int] == bank@);
        for unit in 0..bank.units
            invariant
                layout@.addressable(),
                i < layout.banks@.len(),
                layout@.banks[i as int] == bank@,
                default_from(layout@, *facts, 0, 0, Seq::empty()) == default_from(
                    layout@,
                    *facts,
                    i as int,
                    unit as int,
                    job_views(jobs@),
                ),
        {
            match bank.image_path(unit) {
                None => {},
                Some(image) => match make_job(layout, i, unit, image, facts) {
                    Ok(j) => {
                        let ghost before = jobs@;
                        let ghost v = j@;
                        jobs.push(j);
                        assert(job_views(jobs@) =~= job_views(before).push(v));
                    },
                    Err(e) => {
                        return Err(e);
                    },
                },
            }
        }
    }
    Ok(jobs)
}

fn override_one(layout: &Layout, facts: &ImageFacts, assign: &SlotAssign) -> (r: Result<WriteJob>)
    requires
        layout@.addressable(),
    ensures
        match r {
            Ok(j) => override_job(layout@, *facts, assign@) == Ok::<WriteJobView, ErrorView>(j@),
            Err(e) => override_job(layout@, *facts, assign@) == Err::<WriteJobView, ErrorView>(e@),
        },
{
    let (idx, unit) = match layout.resolve_slot(&assign.slot) {
        Ok(p) => p,
        Err(e) => {
            return Err(e);
        },
    };
    let bank = &layout.banks[idx];
    assert(layout@.banks[idx as int] == bank@);
    let image = match &assign.image {
        Some(p) => Some(p.clone()),
        None => bank.image_path(unit),
    };
    match image {
        Some(path) => make_job(layout, idx, unit, path, facts),
        None => {
            let t = assign.slot.display();
            Err(
                Error::Validation(
                    cat5(
                        "slot ",
                        &t,
                        " has no image in the manifest; use --slot ",
                        &t,
                        "=<image>",
                    ),
                ),
            )
        },
    }
}

fn override_jobs(layout: &Layout, facts: &ImageFacts, overrides: &Vec<SlotAssign>) -> (r: Result<
    Vec<WriteJob>,
>)
    requires
        layout@.addressable(),
    ensures
        match r {
            Ok(jobs) => overrides_from(layout@, *facts, overrides@, 0, Seq::empty()) == Ok::<
                Seq<WriteJobView>,
                ErrorView,
            >(job_views(jobs@)),
            Err(e) => overrides_from(layout@, *facts, overrides@, 0, Seq::empty()) == Err::<
                Seq<WriteJobView>,
                ErrorView,
            >(e@),
        },
{
    let mut jobs: Vec<WriteJob> = Vec::new();
    assert(job_views(jobs@) =~= Seq::<WriteJobView>::empty());
    for i in 0..overrides.len()
        invariant
            layout@.addressable(),
            overrides_from(layout@, *facts, overrides@, 0, Seq::empty()) == overrides_from(
                layout@,
                *facts,
                overrides@,
                i as int,
                job_views(jobs@),
            ),
    {
        match override_one(layout, facts, &overrides[i]) {
            Ok(j) => {
                let ghost before = jobs@;
                let ghost v = j@;
                jobs.push(j);
                assert(job_views(jobs@) =~= job_views(before).push(v));
            },
            Err(e) => {
                return Err(e);
            },
        }
    }
    Ok(jobs)
}

fn find_repeat(jobs: &Vec<WriteJob>) -> (r: Option<usize>)
    ensures
        match r {
            Some(k) => k < jobs@.len() && repeated_target(job_views(jobs@), 0) == Some(
                jobs@[k as int]@,
            ),
            None => repeated_target(job_views(jobs@), 0) is None,
        },
{
    let ghost v = job_views(jobs@);
    for i in 0..jobs.len()
        invariant
            v == job_views(jobs@),
            repeated_target(v, 0) == repeated_target(v, i as int),
    {
        let mut j: usize = i + 1;
        while j < jobs.len()
            invariant
                v == job_views(jobs@),
                i < jobs@.len(),
                i < j,
                j <= jobs@.len(),
                repeated_target(v, 0) == repeated_target(v, i as int),
                forall|k: int| i < k < j ==> !same_target(#[trigger] v[k], v[i as int]),
            decreases jobs@.len() - j,
        {
            assert(v[i as int] == jobs@[i as int]@);
            assert(v[j as int] == jobs@[j as int]@);
            if jobs[i].unit == jobs[j].unit && jobs[i].bank == jobs[j].bank {
                return Some(i);
            }
            j = j + 1;
        }
        assert(!target_repeats(v, i as int));
    }
    None
}

/// Resolve manifest slots and overrides into write jobs. With no overrides,
/// every manifest slot that names an image is written; with overrides, only
/// the named slots are touched. `facts` is what the host says of the images.
pub fn plan_writes(layout: &Layout, overrides: &Vec<SlotAssign>, facts: &ImageFacts) -> (r: Result<
    Vec<WriteJob>,
>)
    requires
        layout@.addressable(),
    ensures
        match r {
            Ok(jobs) => planned(layout@, overrides@, *facts) == Ok::<Seq<WriteJobView>, ErrorView>(
                job_views(jobs@),
            ),
            Err(e) => planned(layout@, overrides@, *facts) == Err::<Seq<WriteJobView>, ErrorView>(
                e@,
            ),
        },
{
    let made = if overrides.len() == 0 {
        default_jobs(layout, facts)
    } else {
        override_jobs(layout, facts, overrides)
    };
    let jobs = match made {
        Ok(j) => j,
        Err(e) => {
            return Err(e);
        },
    };
    if jobs.len() == 0 && overrides.len() == 0 {
        return Err(
            Error::Validation(
                "manifest names no images and no --slot overrides were given".to_owned(),
            ),
        );
    }
    match find_repeat(&jobs) {
        Some(k) => {
            let u = dec_text(jobs[k].unit as u64);
            let mut m = cat4("slot ", &jobs[k].bank, ":", &u);
            m.append(" is named more than once");
            Err(Error::Validation(m))
        },
        None => Ok(jobs),
    }
}

/// The images that overrides name, in order.
pub open spec fn override_images(overrides: Seq<SlotAssign>) -> Seq<Seq<char>>
    decreases overrides.len(),
{
    if overrides.len() == 0 {
        Seq::empty()
    } else {
        let before = override_images(overrides.drop_last());
        match opt_text(overrides.last().image) {
            Some(image) => before.push(image),
            None => before,
        }
    }
}

/// The images of the first `n` units of a bank, in order.
pub open spec fn bank_images(bank: BankView, n: int) -> Seq<Seq<char>>
    decreases n,
{
    if n <= 0 {
        Seq::empty()
    } else {
        let before = bank_images(bank, n - 1);
        match bank.image_of((n - 1) as u32) {
            Some(image) => before.push(image),
            None => before,
        }
    }
}

/// The images of the first `n` banks of a layout, bank by bank.
pub open spec fn layout_images(layout: LayoutView, n: int) -> Seq<Seq<char>>
    decreases n,
{
    if n <= 0 {
        Seq::empty()
    } else {
        layout_images(layout, n - 1) + bank_images(
            layout.banks[n - 1],
            layout.banks[n - 1].units as int,
        )
    }
}

/// The image paths that a plan asks the host about: those of the overrides,
/// then those of the manifest, and no others.
pub fn image_paths(layout: &Layout, overrides: &Vec<SlotAssign>) -> (r: Vec<String>)
    ensures
        texts(r@) == override_images(overrides@) + layout_images(
            layout@,
            layout@.banks.len() as int,
        ),
{
    let mut out: Vec<String> = Vec::new();
    assert(texts(out@) =~= override_images(overrides@.take(0)));
    for k in 0..overrides.len()
        invariant
            texts(out@) == override_images(overrides@.take(k as int)),
    {
        proof {
            let next = overrides@.take(k as int + 1);
            assert(next.drop_last() =~= overrides@.take(k as int));
            assert(next.last() == overrides@[k as int]);
        }
        if let Some(p) = &overrides[k].image {
            push_text(&mut out, p);
        }
    }
    let ghost first = texts(out@);
    assert(overrides@.take(overrides@.len() as int) =~= overrides@);
    assert(first + layout_images(layout@, 0) =~= first);
    for i in 0..layout.banks.len()
        invariant
            texts(out@) == first + layout_images(layout@, i as int),
    {
        let bank = &layout.banks[i];
        assert(layout@.banks[i as int] == bank@);
        let ghost before = texts(out@);
        assert(before + bank_images(bank@, 0) =~= before);
        for unit in 0..bank.units
            invariant
                texts(out@) == before + bank_images(bank@, unit as int),
        {
            let ghost had = bank_images(bank@, unit as int);
            if let Some(p) = bank.image_path(unit) {
                push_text(&mut out, &p);
                assert((before + had).push(p@) =~= before + had.push(p@));
            }
        }
        assert(first + layout_images(layout@, i as int) + bank_images(bank@, bank.units as int)
            =~= first + layout_images(layout@, i + 1));
    }
    out
}

// ---------------------------------------------------------------------------
// Plan summaries and plan events
// ---------------------------------------------------------------------------

#[derive(Debug)]
pub struct PlanSummaryItem {
    pub bank: String,
    pub unit: u32,
    pub image: Option<String>,
    pub offset: u64,
    pub slot_len: u64,
    pub image_len: Option<u64>,
    pub missing: bool,
}

pub struct PlanSummaryItemView {
    pub bank: Seq<char>,
    pub unit: u32,
    pub image: Option<Seq<char>>,
    pub offset: u64,
    pub slot_len: u64,
    pub image_len: Option<u64>,
    pub missing: bool,
}

impl View for PlanSummaryItem {
    type V = PlanSummaryItemView;

    open spec fn view(&self) -> PlanSummaryItemView {
        PlanSummaryItemView {
            bank: self.bank@,
            unit: self.unit,
            image: opt_text(self.image),
            offset: self.offset,
            slot_len: self.slot_len,
            image_len: self.image_len,
            missing: self.missing,
        }
    }
}

#[derive(Debug)]
pub struct PlanSummary {
    pub items: Vec<PlanSummaryItem>,
    pub unmapped_count: usize,
}

pub open spec fn is_selected(selected: Seq<(String, u32)>, bank: Seq<char>, unit: u32) -> bool {
    selected.len() == 0 || exists|k: int|
        0 <= k < selected.len() && (#[trigger] selected[k]).0@ == bank && selected[k].1 == unit
}

/// One row of a summary.
pub open spec fn summary_item(b: BankView, unit: u32, facts: ImageFacts) -> PlanSummaryItemView {
    let image = b.image_of(unit)->0;
    PlanSummaryItemView {
        bank: b.name,
        unit,
        image: Some(image),
        offset: b.offset_of(unit as int) as u64,
        slot_len: b.slot_size,
        image_len: match facts.fact(image) {
            ImageFactView::File(n) => Some(n),
            ImageFactView::Other(n) => Some(n),
            ImageFactView::Missing(_) => None,
        },
        missing: facts.fact(image) is Missing,
    }
}

/// The rows of a selection from place (`i`, `u`) on behind `items`, and the
/// number of selected slots that name no image on top of `unmapped`.
pub open spec fn summary_from(
    layout: LayoutView,
    selected: Seq<(String, u32)>,
    facts: ImageFacts,
    i: int,
    u: int,
    items: Seq<PlanSummaryItemView>,
    unmapped: int,
) -> (Seq<PlanSummaryItemView>, int)
    decreases layout.banks.len() - i, layout.banks[i].units - u,
{
    if i < 0 || i >= layout.banks.len() || u < 0 {
        (items, unmapped)
    } else if u >= layout.banks[i].units {
        summary_from(layout, selected, facts, i + 1, 0, items, unmapped)
    } else if !is_selected(selected, layout.banks[i].name, u as u32) {
        summary_from(layout, selected, facts, i, u + 1, items, unmapped)
    } else if layout.banks[i].image_of(u as u32) is Some {
        summary_from(
            layout,
            selected,
            facts,
            i,
            u + 1,
            items.push(summary_item(layout.banks[i], u as u32, facts)),
            unmapped,
        )
    } else {
        summary_from(layout, selected, facts, i, u + 1, items, unmapped + 1)
    }
}

/// How many slots the first `n` banks have.
pub open spec fn slot_count(layout: LayoutView, n: int) -> int
    decreases n,
{
    if n <= 0 {
        0
    } else {
        slot_count(layout, n - 1) + layout.banks[n - 1].units
    }
}

proof fn slot_count_grows(layout: LayoutView, a: int, b: int)
    requires
        0 <= a <= b,
    ensures
        0 <= slot_count(layout, a) <= slot_count(layout, b),
    decreases b,
{
    if a < b {
        slot_count_grows(layout, a, b - 1);
    } else if a > 0 {
        slot_count_grows(layout, a - 1, a - 1);
    }
}

fn selected_here(selected: &Vec<(String, u32)>, bank: &str, unit: u32) -> (r: bool)
    ensures
        r == is_selected(selected@, bank@, unit),
{
    if selected.len() == 0 {
        return true;
    }
    let mut k: usize = 0;
    while k < selected.len()
        invariant
            k <= selected@.len(),
            forall|j: int|
                0 <= j < k ==> !((#[trigger] selected@[j]).0@ == bank@ && selected@[j].1 == unit),
        decreases selected@.len() - k,
    {
        if selected[k].1 == unit && same_text(&selected[k].0, bank) {
            return true;
        }
        k = k + 1;
    }
    false
}

/// Resolves slots and missing files across a selection for frontends; an empty
/// selection stands for every slot.
pub fn summarize_plan(
    layout: &Layout,
    selected: &Vec<(String, u32)>,
    facts: &ImageFacts,
) -> (r: PlanSummary)
    requires
        layout@.addressable(),
        slot_count(layout@, layout@.banks.len() as int) <= usize::MAX,
    ensures
        summary_from(layout@, selected@, *facts, 0, 0, Seq::empty(), 0) == (
            r.items@.map_values(|x: PlanSummaryItem| x@),
            r.unmapped_count as int,
        ),
{
    let mut items: Vec<PlanSummaryItem> = Vec::new();
    let mut unmapped: usize = 0;
    let ghost total = summary_from(layout@, selected@, *facts, 0, 0, Seq::empty(), 0);
    assert(items@.map_values(|x: PlanSummaryItem| x@) =~= Seq::<PlanSummaryItemView>::empty());
    for i in 0..layout.banks.len()
        invariant
            layout@.addressable(),
            slot_count(layout@, layout@.banks.len() as int) <= usize::MAX,
            unmapped <= slot_count(layout@, i as int),
            total == summary_from(
                layout@,
                selected@,
                *facts,
                i as int,
                0,
                items@.map_values(|x: PlanSummaryItem| x@),
                unmapped as int,
            ),
    {
        let bank = &layout.banks[i];
        assert(layout@.banks[i as int] == bank@);
        proof {
            slot_count_grows(layout@, i + 1, layout@.banks.len() as int);
        }
        for unit in 0..bank.units
            invariant
                layout@.addressable(),
                i < layout.banks@.len(),
                layout@.banks[i as int] == bank@,
                slot_count(layout@, i + 1) <= usize::MAX,
                unmapped <= slot_count(layout@, i as int) + unit,
                total == summary_from(
                    layout@,
                    selected@,
                    *facts,
                    i as int,
                    unit as int,
                    items@.map_values(|x: PlanSummaryItem| x@),
                    unmapped as int,
                ),
        {
            if selected_here(selected, &bank.name, unit) {
                match bank.image_path(unit) {
                    Some(p) => {
                        let (missing, image_len) = match facts.of(&p) {
                            ImageFact::File(n) => (false, Some(n)),
                            ImageFact::Other(n) => (false, Some(n)),
                            ImageFact::Missing(_) => (true, None),
                        };
                        proof {
                            slots_lie_in_their_bank(bank@, unit as int);
                        }
                        let item = PlanSummaryItem {
                            bank: bank.name.clone(),
                            unit,
                            image: Some(p),
                            offset: bank.slot_offset(unit),
                            slot_len: bank.slot_size,
                            image_len,
                            missing,
                        };
                        assert(item@ == summary_item(bank@, unit, *facts));
                        let ghost before = items@;
                        let ghost v = item@;
                        items.push(item);
                        assert(items@.map_values(|x: PlanSummaryItem| x@) =~= before.map_values(
                            |x: PlanSummaryItem| x@,
                        ).push(v));
                    },
                    None => {
                        unmapped = unmapped + 1;
                    },
                }
            }
        }
    }
    PlanSummary { items, unmapped_count: unmapped }
}

pub open spec fn plan_op(j: WriteJobView, op: OpKind) -> PlanOpView {
    PlanOpView {
        op,
        bank: j.bank,
        unit: j.unit,
        offset: j.extent.offset,
        bytes: if op == OpKind::Wipe {
            j.extent.len
        } else {
            j.image_len
        },
        image: Some(j.image),
    }
}

/// The event that announces a plan.
pub fn plan_ops(device: &str, layout: &Layout, jobs: &Vec<WriteJob>, op: OpKind) -> (r: Event)
    ensures
        r@ == (EventView::Plan {
            schema: EVENT_SCHEMA_VERSION,
            device: device@,
            sector_size: layout.sector_size,
            ops: job_views(jobs@).map_values(|j: WriteJobView| plan_op(j, op)),
        }),
{
    let mut ops: Vec<PlanOp> = Vec::new();
    for i in 0..jobs.len()
        invariant
            ops@.len() == i,
            forall|k: int| 0 <= k < i ==> (#[trigger] ops@[k])@ == plan_op(jobs@[k]@, op),
    {
        let j = &jobs[i];
        let bytes: u64 = if op == OpKind::Wipe {
            j.extent.len
        } else {
            j.image_len
        };
        ops.push(
            PlanOp {
                op,
                bank: j.bank.clone(),
                unit: j.unit,
                offset: j.extent.offset,
                bytes,
                image: Some(j.image.clone()),
            },
        );
    }
    assert(ops@.map_values(|o: PlanOp| o@) =~= job_views(jobs@).map_values(
        |j: WriteJobView| plan_op(j, op),
    ));
    Event::Plan {
        schema: EVENT_SCHEMA_VERSION,
        device: device.to_owned(),
        sector_size: layout.sector_size,
        ops,
    }
}

// ---------------------------------------------------------------------------
// Extraction lengths and names
// ---------------------------------------------------------------------------

#[derive(Debug, Clone, Copy, PartialEq, Eq, Structural)]
pub enum LengthMode {
    Bytes(u64),
    Toc,
    Canonical,
    Slot,
}

/// The length mode that a text stands for, in any case.
pub open spec fn length_mode(s: Seq<char>, sector_size: u32) -> std::result::Result<
    LengthMode,
    ErrorView,
> {
    let low = lowercase(s);
    if low == "toc"@ {
        Ok(LengthMode::Toc)
    } else if low == "canonical"@ {
        Ok(LengthMode::Canonical)
    } else if low == "slot"@ {
        Ok(LengthMode::Slot)
    } else {
        match size_value(s, sector_size) {
            Ok(n) => Ok(LengthMode::Bytes(n)),
            Err(e) => Err(e),
        }
    }
}

impl LengthMode {
    pub fn parse(s: &str, sector_size: u32) -> (r: Result<LengthMode>)
        ensures
            crate::error::outcome(r) == length_mode(s@, sector_size),
    {
        let low = lowercase_text(s);
        if same_text(&low, "toc") {
            Ok(LengthMode::Toc)
        } else if same_text(&low, "canonical") {
            Ok(LengthMode::Canonical)
        } else if same_text(&low, "slot") {
            Ok(LengthMode::Slot)
        } else {
            match parse_size(s, sector_size) {
                Ok(n) => Ok(LengthMode::Bytes(n)),
                Err(e) => Err(e),
            }
        }
    }
}

/// `c` where it may stand in a file name, else an underscore.
pub open spec fn safe_char(c: char) -> char {
    if is_alnum(c) || c == '-' || c == '_' {
        c
    } else {
        '_'
    }
}

/// `<bank><unit>[_<name>].img`, the name made safe.
pub open spec fn extracted_name(bank: Seq<char>, unit: u32, name: Option<Seq<char>>) -> Seq<char> {
    let base = bank + dec(unit as nat);
    match name {
        Some(n) => if n.len() > 0 {
            base + "_"@ + n.map_values(|c: char| safe_char(c)) + ".img"@
        } else {
            base + ".img"@
        },
        None => base + ".img"@,
    }
}

/// Filename for a batch-extracted slot image: the slot coordinates plus a
/// sanitized slot name, shared by every frontend.
pub fn extract_filename(bank: &str, unit: u32, name: Option<&str>) -> (r: String)
    ensures
        r@ == extracted_name(
            bank@,
            unit,
            match name {
                Some(n) => Some(n@),
                None => None,
            },
        ),
{
    let u = dec_text(unit as u64);
    let base = cat2(bank, &u);
    match name {
        Some(n) => {
            let cs = chars_of(n);
            let mut safe = String::new();
            for i in 0..cs.len()
                invariant
                    cs@ == n@,
                    safe@ == n@.take(i as int).map_values(|c: char| safe_char(c)),
            {
                let c = cs[i];
                if alnum_here(c) || c == '-' || c == '_' {
                    safe.push(c);
                } else {
                    safe.push('_');
                }
                assert(safe@ =~= n@.take(i + 1).map_values(|c: char| safe_char(c)));
            }
            assert(n@.take(n@.len() as int) =~= n@);
            if cs.len() > 0 {
                cat4(&base, "_", &safe, ".img")
            } else {
                cat2(&base, ".img")
            }
        },
        None => cat2(&base, ".img"),
    }
}

} // verus!
