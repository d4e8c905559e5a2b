//! The confirmation dialogs: what they list, and the command that each one
//! runs once it is confirmed.

use vstd::prelude::*;
use vstd::string::*;

use crate::engine::plan::{
    extract_filename, extracted_name, slot_count, summarize_plan, summary_from, ImageFacts,
    PlanSummaryItem, PlanSummaryItemView,
};
use crate::gui::backend::{all_shell_quoted, equivalent_command, CliCommand, CliCommandView};
use crate::gui::options::{Options, Warning};
use crate::gui::slots::{key_views, SlotKey, SlotKeyView};
use crate::gui::target::{Target, TargetView};
use crate::layout::{bank_named, slot_label, slot_name, Layout, LayoutView};
use crate::paths::{file_name_is, path_file_name};
use crate::search::find_where;
use crate::text::{
    byte_range, cat2, cat3, cat4, cat5, clone_opt, dec, dec_count, joined, opt_text, push_text,
    range_text, texts,
};
use crate::units::{bytes_text, format_bytes};

verus! {

/// One row of the "Write Selected" preview: slot, source image, byte range.
#[derive(Debug)]
pub struct PlannedWrite {
    pub bank: String,
    pub unit: u32,
    pub image: String,
    pub offset: u64,
    pub slot_len: u64,
    pub missing: bool,
}

pub struct PlannedWriteView {
    pub bank: Seq<char>,
    pub unit: u32,
    pub image: Seq<char>,
    pub offset: u64,
    pub slot_len: u64,
    pub missing: bool,
}

impl View for PlannedWrite {
    type V = PlannedWriteView;

    open spec fn view(&self) -> PlannedWriteView {
        PlannedWriteView {
            bank: self.bank@,
            unit: self.unit,
            image: self.image@,
            offset: self.offset,
            slot_len: self.slot_len,
            missing: self.missing,
        }
    }
}

pub open spec fn planned_views(v: Seq<PlannedWrite>) -> Seq<PlannedWriteView> {
    v.map_values(|p: PlannedWrite| p@)
}

/// The rows of a summary that name an image.
pub open spec fn writes_of(items: Seq<PlanSummaryItemView>) -> Seq<PlannedWriteView>
    decreases items.len(),
{
    if items.len() == 0 {
        Seq::empty()
    } else {
        let rest = writes_of(items.drop_last());
        let x = items.last();
        match x.image {
            Some(image) => rest.push(
                PlannedWriteView {
                    bank: x.bank,
                    unit: x.unit,
                    image,
                    offset: x.offset,
                    slot_len: x.slot_len,
                    missing: x.missing,
                },
            ),
            None => rest,
        }
    }
}

/// The selected slots that name an image, with their byte ranges, and how many
/// selected slots have none. Nothing where nothing that could be written is
/// selected.
pub fn plan_selected_writes(layout: &Layout, selected: &Vec<SlotKey>, facts: &ImageFacts) -> (r:
    Option<(Vec<PlannedWrite>, usize)>)
    requires
        layout@.addressable(),
        slot_count(layout@, layout@.banks.len() as int) <= usize::MAX,
    ensures
        selected@.len() == 0 ==> r is None,
        selected@.len() > 0 ==> ({
            let (items, unmapped) = summary_from(
                layout@,
                selected@,
                *facts,
                0,
                0,
                Seq::empty(),
                0,
            );
            match r {
                Some((planned, no_image)) => items.len() > 0 && planned_views(planned@)
                    == writes_of(items) && no_image == unmapped,
                None => items.len() == 0,
            }
        }),
{
    // A summary of no selection covers the whole layout.
    if selected.len() == 0 {
        return None;
    }
    let summary = summarize_plan(layout, selected, facts);
    let ghost items = summary.items@.map_values(|x: PlanSummaryItem| x@);
    if summary.items.len() == 0 {
        return None;
    }
    let mut planned: Vec<PlannedWrite> = Vec::new();
    let mut i: usize = 0;
    assert(planned_views(planned@) =~= writes_of(items.take(0)));
    while i < summary.items.len()
        invariant
            i <= summary.items@.len(),
            items == summary.items@.map_values(|x: PlanSummaryItem| x@),
            planned_views(planned@) == writes_of(items.take(i as int)),
        decreases summary.items@.len() - i,
    {
        let item = &summary.items[i];
        let ghost before = planned@;
        if let Some(image) = &item.image {
            planned.push(
                PlannedWrite {
                    bank: item.bank.clone(),
                    unit: item.unit,
                    image: image.clone(),
                    offset: item.offset,
                    slot_len: item.slot_len,
                    missing: item.missing,
                },
            );
            assert(planned_views(planned@) =~= planned_views(before).push(planned@.last()@));
        }
        proof {
            let next = items.take(i as int + 1);
            assert(next.drop_last() =~= items.take(i as int));
            assert(next.last() == item@);
        }
        i = i + 1;
    }
    assert(items.take(i as int) =~= items);
    Some((planned, summary.unmapped_count))
}

/// The planned writes whose image is on disk, as slots.
pub open spec fn present(planned: Seq<PlannedWriteView>) -> Seq<SlotKeyView>
    decreases planned.len(),
{
    if planned.len() == 0 {
        Seq::empty()
    } else if planned.last().missing {
        present(planned.drop_last())
    } else {
        present(planned.drop_last()).push((planned.last().bank, planned.last().unit))
    }
}

/// The slots to write: those whose image is on disk.
pub fn present_slots(planned: &Vec<PlannedWrite>) -> (r: Vec<SlotKey>)
    ensures
        key_views(r@) == present(planned_views(planned@)),
        r@.len() <= planned@.len(),
{
    let ghost all = planned_views(planned@);
    let mut out: Vec<SlotKey> = Vec::new();
    let mut i: usize = 0;
    assert(key_views(out@) =~= present(all.take(0)));
    while i < planned.len()
        invariant
            i <= planned@.len(),
            out@.len() <= i,
            all == planned_views(planned@),
            key_views(out@) == present(all.take(i as int)),
        decreases planned@.len() - i,
    {
        let p = &planned[i];
        let ghost before = out@;
        if !p.missing {
            out.push((p.bank.clone(), p.unit));
            assert(key_views(out@) =~= key_views(before).push((p.bank@, p.unit)));
        }
        proof {
            let next = all.take(i as int + 1);
            assert(next.drop_last() =~= all.take(i as int));
            assert(next.last() == p@);
        }
        i = i + 1;
    }
    assert(all.take(i as int) =~= all);
    out
}

// ---------------------------------------------------------------------------
// Texts
// ---------------------------------------------------------------------------

pub open spec fn slot_names(slots: Seq<SlotKeyView>) -> Seq<Seq<char>> {
    slots.map_values(|k: SlotKeyView| slot_name(k))
}

fn slot_labels(slots: &Vec<SlotKey>) -> (r: Vec<String>)
    ensures
        texts(r@) == slot_names(key_views(slots@)),
{
    let mut out: Vec<String> = Vec::new();
    let mut i: usize = 0;
    while i < slots.len()
        invariant
            i <= slots@.len(),
            texts(out@) =~= slot_names(key_views(slots@)).take(i as int),
        decreases slots@.len() - i,
    {
        let label = slot_label(&slots[i].0, slots[i].1);
        push_text(&mut out, &label);
        i = i + 1;
        assert(texts(out@) =~= slot_names(key_views(slots@)).take(i as int));
    }
    assert(texts(out@) =~= slot_names(key_views(slots@)));
    out
}

/// The label of an image: its file name, or its path where it has none.
pub open spec fn label_of(path: Seq<char>, file_name: Option<Seq<char>>) -> Seq<char> {
    match file_name {
        Some(n) => n,
        None => path,
    }
}

/// The label of an image: its file name, or its path where it has none.
pub fn image_label(path: &str, file_name: Option<String>) -> (r: String)
    ensures
        r@ == label_of(path@, opt_text(file_name)),
{
    match file_name {
        Some(n) => n,
        None => path.to_owned(),
    }
}

/// One line of the "Write Selected" preview, with the image's file name.
pub open spec fn planned_text(p: PlannedWriteView, file: Seq<char>) -> Seq<char> {
    slot_name((p.bank, p.unit)) + "  bytes "@ + range_text(
        p.offset as int,
        p.offset + p.slot_len,
    ) + "  <- "@ + file + (if p.missing {
        "  (file not found — will be skipped)"@
    } else {
        ""@
    })
}

/// One line of the "Write Selected" preview.
pub fn planned_line(p: &PlannedWrite, file: &str) -> (r: String)
    requires
        p.offset + p.slot_len <= u64::MAX,
    ensures
        r@ == planned_text(p@, file@),
{
    let slot = slot_label(&p.bank, p.unit);
    let range = byte_range(p.offset, p.offset + p.slot_len);
    let line = cat5(&slot, "  bytes ", &range, "  <- ", file);
    if p.missing {
        cat2(&line, "  (file not found — will be skipped)")
    } else {
        cat2(&line, "")
    }
}

/// `line` lists `p` with its image's file name, as some platform divides the path.
pub open spec fn lists(p: PlannedWriteView, line: Seq<char>) -> bool {
    exists|file: Option<Seq<char>>| #[trigger]
        file_name_is(p.image, file) && line == planned_text(p, label_of(p.image, file))
}

/// The lines of the "Write Selected" preview, each with the word whether its
/// file is missing. Each names a file as the machine divides its path.
pub fn planned_lines(planned: &Vec<PlannedWrite>) -> (r: Vec<(String, bool)>)
    requires
        forall|i: int|
            0 <= i < planned@.len() ==> (#[trigger] planned@[i]).offset + planned@[i].slot_len
                <= u64::MAX,
    ensures
        r@.len() == planned@.len(),
        forall|i: int|
            0 <= i < r@.len() ==> (#[trigger] r@[i]).1 == planned@[i].missing && lists(
                planned@[i]@,
                r@[i].0@,
            ),
{
    let mut out: Vec<(String, bool)> = Vec::new();
    let mut i: usize = 0;
    while i < planned.len()
        invariant
            i <= planned@.len(),
            out@.len() == i,
            forall|j: int|
                0 <= j < planned@.len() ==> (#[trigger] planned@[j]).offset + planned@[j].slot_len
                    <= u64::MAX,
            forall|j: int|
                0 <= j < i ==> (#[trigger] out@[j]).1 == planned@[j].missing && lists(
                    planned@[j]@,
                    out@[j].0@,
                ),
        decreases planned@.len() - i,
    {
        let p = &planned[i];
        let name = path_file_name(&p.image);
        let ghost named = opt_text(name);
        let file = image_label(&p.image, name);
        let line = planned_line(p, &file);
        assert(file_name_is(p@.image, named));
        assert(lists(p@, line@));
        out.push((line, p.missing));
        i = i + 1;
    }
    out
}

/// What the preview says below its list.
pub open spec fn preview_text(planned: Seq<PlannedWriteView>, no_image: nat, verify: bool) -> Seq<
    Seq<char>,
> {
    let go = present(planned).len();
    let gone = planned.len() - go;
    (if no_image > 0 {
        seq![dec(no_image) + " selected slot(s) have no image and are ignored."@]
    } else {
        Seq::empty()
    }) + (if gone > 0 {
        seq![
            dec(gone as nat)
                + " image file(s) are missing on this PC and will be SKIPPED; their slots are left untouched."@,
            if go == 0 {
                "No image files are present; there is nothing to write."@
            } else {
                "Continue and write only the "@ + dec(go) + " present image(s)?"@
            },
        ]
    } else {
        Seq::empty()
    }) + seq![
        if verify {
            "Only the listed slots are touched; each write is verified."@
        } else {
            "Only the listed slots are touched; verify after write is disabled in Settings."@
        },
    ]
}

/// What the preview says below its list: ignored slots, missing files, and
/// whether the writes are verified.
pub fn preview_notes(planned: &Vec<PlannedWrite>, no_image: usize, verify: bool) -> (r: Vec<String>)
    ensures
        texts(r@) == preview_text(planned_views(planned@), no_image as nat, verify),
{
    let go: usize = present_slots(planned).len();
    let gone: usize = planned.len() - go;
    assert(present(planned_views(planned@)).len() == go);
    assert(planned_views(planned@).len() == planned@.len());
    let mut out: Vec<String> = Vec::new();
    let ghost t0 = texts(out@);
    assert(t0 =~= Seq::<Seq<char>>::empty());
    if no_image > 0 {
        let n = dec_count(no_image);
        let line = cat2(&n, " selected slot(s) have no image and are ignored.");
        push_text(&mut out, &line);
        assert(texts(out@) =~= seq![line@]);
    }
    let ghost t1 = texts(out@);
    if gone > 0 {
        let n = dec_count(gone);
        let line = cat2(
            &n,
            " image file(s) are missing on this PC and will be SKIPPED; their slots are left untouched.",
        );
        push_text(&mut out, &line);
        let second = if go == 0 {
            "No image files are present; there is nothing to write.".to_owned()
        } else {
            let n = dec_count(go);
            cat3("Continue and write only the ", &n, " present image(s)?")
        };
        push_text(&mut out, &second);
        assert(texts(out@) =~= t1 + seq![line@, second@]);
    } else {
        assert(texts(out@) =~= t1 + Seq::<Seq<char>>::empty());
    }
    let ghost t2 = texts(out@);
    let last = if verify {
        "Only the listed slots are touched; each write is verified."
    } else {
        "Only the listed slots are touched; verify after write is disabled in Settings."
    };
    push_text(&mut out, last);
    assert(texts(out@) =~= t2 + seq![last@]);
    out
}

/// The byte range of a slot, by its bank's name.
pub open spec fn extent_of(layout: LayoutView, bank: Seq<char>, unit: u32) -> Option<
    (int, int, u64),
> {
    match find_where(layout.banks, bank_named(bank)) {
        Some(b) => Some(
            (b.offset_of(unit as int), b.offset_of(unit as int) + b.slot_size, b.slot_size),
        ),
        None => None,
    }
}

/// `bytes 0x..0x.. (16 MiB slot)`, where the layout has the slot's bank.
pub fn slot_range(layout: &Layout, bank: &str, unit: u32) -> (r: Option<String>)
    requires
        extent_of(layout@, bank@, unit) matches Some(x) ==> x.1 <= u64::MAX,
    ensures
        match extent_of(layout@, bank@, unit) {
            Some((start, end, size)) => r matches Some(t) && t@ == "bytes "@ + range_text(start, end)
                + " ("@ + bytes_text(size) + " slot)"@,
            None => r is None,
        },
{
    match layout.bank(bank) {
        None => None,
        Some(b) => {
            let start: u64 = b.slot_offset(unit);
            let range = byte_range(start, start + b.slot_size);
            let size = format_bytes(b.slot_size);
            Some(cat5("bytes ", &range, " (", &size, " slot)"))
        },
    }
}

/// `rl:3  bytes 0x..0x.. (16 MiB)`, where the layout has the slot's bank.
pub fn wipe_line(layout: &Layout, bank: &str, unit: u32) -> (r: Option<String>)
    requires
        extent_of(layout@, bank@, unit) matches Some(x) ==> x.1 <= u64::MAX,
    ensures
        match extent_of(layout@, bank@, unit) {
            Some((start, end, size)) => r matches Some(t) && t@ == slot_name((bank@, unit))
                + "  bytes "@ + range_text(start, end) + " ("@ + bytes_text(size) + ")"@,
            None => r is None,
        },
{
    match layout.bank(bank) {
        None => None,
        Some(b) => {
            let start: u64 = b.slot_offset(unit);
            let slot = slot_label(bank, unit);
            let range = byte_range(start, start + b.slot_size);
            let size = format_bytes(b.slot_size);
            let head = cat4(&slot, "  bytes ", &range, " (");
            Some(cat3(&head, &size, ")"))
        },
    }
}

/// `rl:3 → rl3_name.img`: where a slot is extracted to.
pub fn extract_line(layout: &Layout, bank: &str, unit: u32) -> (r: String)
    ensures
        r@ == slot_name((bank@, unit)) + " → "@ + extracted_name(
            bank@,
            unit,
            match find_where(layout@.banks, bank_named(bank@)) {
                Some(b) => b.name_of(unit),
                None => None,
            },
        ),
{
    let name = match layout.bank(bank) {
        Some(b) => b.slot_name(unit),
        None => None,
    };
    let file = match &name {
        Some(n) => extract_filename(bank, unit, Some(n)),
        None => extract_filename(bank, unit, None),
    };
    let slot = slot_label(bank, unit);
    cat3(&slot, " → ", &file)
}

// ---------------------------------------------------------------------------
// Dialogs
// ---------------------------------------------------------------------------

/// How much of a slot to extract.
#[derive(Debug, Clone, Copy, PartialEq, Eq, Structural)]
pub enum LengthChoice {
    Canonical,
    Toc,
    Slot,
}

impl LengthChoice {
    pub open spec fn text(self) -> Seq<char> {
        match self {
            LengthChoice::Canonical => "canonical"@,
            LengthChoice::Toc => "toc"@,
            LengthChoice::Slot => "slot"@,
        }
    }

    pub fn name(self) -> (r: &'static str)
        ensures
            r@ == self.text(),
    {
        match self {
            LengthChoice::Canonical => "canonical",
            LengthChoice::Toc => "toc",
            LengthChoice::Slot => "slot",
        }
    }
}

/// The dialog on show.
#[derive(Debug)]
pub enum Modal {
    /// No dialog.
    Hidden,
    ConfirmWrite { bank: String, unit: u32, image: String },
    /// `no_image`: selected slots with no image to write, ignored with a note.
    ConfirmWriteSelected { planned: Vec<PlannedWrite>, no_image: usize },
    ConfirmExtractSelected { slots: Vec<SlotKey>, dir: String },
    ConfirmWipeSelected { slots: Vec<SlotKey> },
    /// Shown when the user turns "Advanced" on; enables it only on confirm.
    ConfirmAdvanced,
    /// Shown when the user turns startup auto-select on; enables it only on
    /// confirm.
    ConfirmAutoSelect,
    ConfirmWipe { bank: String, unit: u32 },
    Extract { bank: String, unit: u32, length: LengthChoice },
}

/// What a dialog leads to.
#[derive(Debug)]
pub enum ModalOutcome {
    /// Nothing yet.
    Stay,
    /// A plain dismissal.
    Close,
    /// A dangerous option was confirmed.
    Enable(Warning),
    /// A command to run.
    Run(CliCommand),
}

pub enum ModalOutcomeView {
    Stay,
    Close,
    Enable(Warning),
    Run(CliCommandView),
}

impl View for ModalOutcome {
    type V = ModalOutcomeView;

    open spec fn view(&self) -> ModalOutcomeView {
        match self {
            ModalOutcome::Stay => ModalOutcomeView::Stay,
            ModalOutcome::Close => ModalOutcomeView::Close,
            ModalOutcome::Enable(w) => ModalOutcomeView::Enable(*w),
            ModalOutcome::Run(c) => ModalOutcomeView::Run(c@),
        }
    }
}

/// A write of the selection ejects the card where the option is on and the
/// target is a removable device.
pub open spec fn ejects(target: TargetView, options: Options) -> bool {
    options.eject_after_write && target.file is None && (target.entry() matches Some(d)
        && d.is_removable())
}

impl Modal {
    /// The command of a confirmed dialog on a device with a manifest; nothing
    /// where there is nothing to write.
    pub open spec fn command(
        self,
        device: Seq<char>,
        manifest: Seq<char>,
        target: TargetView,
        options: Options,
        out: Seq<char>,
    ) -> Option<CliCommandView> {
        match self {
            Modal::ConfirmWrite { bank, unit, image } => Some(
                CliCommandView::Write {
                    device,
                    manifest,
                    slots: seq![slot_name((bank@, unit)) + "="@ + image@],
                    verify: options.verify,
                    yes: true,
                    force: target.needs_force(),
                    eject: false,
                },
            ),
            Modal::ConfirmWriteSelected { planned, .. } => {
                let go = present(planned_views(planned@));
                if go.len() == 0 {
                    None
                } else {
                    Some(
                        CliCommandView::Write {
                            device,
                            manifest,
                            slots: slot_names(go),
                            verify: options.verify,
                            yes: true,
                            force: target.needs_force(),
                            eject: ejects(target, options),
                        },
                    )
                }
            },
            Modal::ConfirmExtractSelected { slots, dir } => Some(
                CliCommandView::Read {
                    device,
                    manifest,
                    slots: slot_names(key_views(slots@)),
                    out: None,
                    out_dir: Some(dir@),
                    length: None,
                },
            ),
            Modal::ConfirmWipeSelected { slots } => Some(
                CliCommandView::Wipe {
                    device,
                    manifest,
                    slots: slot_names(key_views(slots@)),
                    yes: true,
                    force: target.needs_force(),
                },
            ),
            Modal::ConfirmWipe { bank, unit } => Some(
                CliCommandView::Wipe {
                    device,
                    manifest,
                    slots: seq![slot_name((bank@, unit))],
                    yes: true,
                    force: target.needs_force(),
                },
            ),
            Modal::Extract { bank, unit, length } => Some(
                CliCommandView::Read {
                    device,
                    manifest,
                    slots: seq![slot_name((bank@, unit))],
                    out: Some(out),
                    out_dir: None,
                    length: Some(length.text()),
                },
            ),
            _ => None,
        }
    }

    /// What confirming the dialog leads to. `out` is the file that the user
    /// chose for an extraction.
    pub open spec fn confirmed_outcome(
        self,
        target: TargetView,
        manifest: Option<Seq<char>>,
        options: Options,
        out: Option<Seq<char>>,
    ) -> ModalOutcomeView {
        match self {
            Modal::Hidden => ModalOutcomeView::Stay,
            Modal::ConfirmAdvanced => ModalOutcomeView::Enable(Warning::Advanced),
            Modal::ConfirmAutoSelect => ModalOutcomeView::Enable(Warning::AutoSelect),
            _ => {
                if self is Extract && out is None {
                    ModalOutcomeView::Stay
                } else if self matches Modal::ConfirmWriteSelected { planned, .. } && present(
                    planned_views(planned@),
                ).len() == 0 {
                    ModalOutcomeView::Stay
                } else {
                    match (target.device_arg(), manifest) {
                        (Some(d), Some(m)) => ModalOutcomeView::Run(
                            self.command(
                                d,
                                m,
                                target,
                                options,
                                match out {
                                    Some(o) => o,
                                    None => Seq::empty(),
                                },
                            )->0,
                        ),
                        _ => ModalOutcomeView::Close,
                    }
                }
            },
        }
    }

    /// Confirm the dialog.
    pub fn confirm(
        &self,
        target: &Target,
        manifest: &Option<String>,
        options: &Options,
        out: &Option<String>,
    ) -> (r: ModalOutcome)
        ensures
            r@ == self.confirmed_outcome(target@, opt_text(*manifest), *options, opt_text(*out)),
    {
        match self {
            Modal::Hidden => {
                return ModalOutcome::Stay;
            },
            Modal::ConfirmAdvanced => {
                return ModalOutcome::Enable(Warning::Advanced);
            },
            Modal::ConfirmAutoSelect => {
                return ModalOutcome::Enable(Warning::AutoSelect);
            },
            Modal::Extract { .. } => {
                if out.is_none() {
                    return ModalOutcome::Stay;
                }
            },
            Modal::ConfirmWriteSelected { planned, .. } => {
                let go = present_slots(planned);
                assert(key_views(go@).len() == go@.len());
                if go.len() == 0 {
                    return ModalOutcome::Stay;
                }
            },
            _ => {},
        }
        let device = match target.device_arg() {
            Some(d) => d,
            None => {
                return ModalOutcome::Close;
            },
        };
        let manifest = match manifest {
            Some(m) => m.clone(),
            None => {
                return ModalOutcome::Close;
            },
        };
        let force = target.needs_force();
        let verify = options.verify;
        let mut slots: Vec<String> = Vec::new();
        match self {
            Modal::ConfirmWrite { bank, unit, image } => {
                let slot = slot_label(bank, *unit);
                let arg = cat3(&slot, "=", image);
                push_text(&mut slots, &arg);
                assert(texts(slots@) =~= seq![arg@]);
                ModalOutcome::Run(
                    CliCommand::Write {
                        device,
                        manifest,
                        slots,
                        verify,
                        yes: true,
                        force,
                        eject: false,
                    },
                )
            },
            Modal::ConfirmWriteSelected { planned, .. } => {
                let go = present_slots(planned);
                let slots = slot_labels(&go);
                let eject = options.eject_after_write && target.is_device() && !force;
                ModalOutcome::Run(
                    CliCommand::Write { device, manifest, slots, verify, yes: true, force, eject },
                )
            },
            Modal::ConfirmExtractSelected { slots, dir } => {
                let slots = slot_labels(slots);
                ModalOutcome::Run(
                    CliCommand::Read {
                        device,
                        manifest,
                        slots,
                        out: None,
                        out_dir: Some(dir.clone()),
                        length: None,
                    },
                )
            },
            Modal::ConfirmWipeSelected { slots } => {
                let slots = slot_labels(slots);
                ModalOutcome::Run(CliCommand::Wipe { device, manifest, slots, yes: true, force })
            },
            Modal::ConfirmWipe { bank, unit } => {
                let slot = slot_label(bank, *unit);
                push_text(&mut slots, &slot);
                assert(texts(slots@) =~= seq![slot@]);
                ModalOutcome::Run(CliCommand::Wipe { device, manifest, slots, yes: true, force })
            },
            Modal::Extract { bank, unit, length } => {
                let slot = slot_label(bank, *unit);
                push_text(&mut slots, &slot);
                assert(texts(slots@) =~= seq![slot@]);
                ModalOutcome::Run(
                    CliCommand::Read {
                        device,
                        manifest,
                        slots,
                        out: clone_opt(out),
                        out_dir: None,
                        length: Some(length.name().to_owned()),
                    },
                )
            },
            _ => ModalOutcome::Close,
        }
    }
}

/// The line that a started command logs: the equivalent command line in
/// developer mode, the operation's name otherwise.
pub open spec fn start_text(cmd: CliCommandView, developer: bool) -> Seq<char> {
    if developer {
        "$ "@ + joined(seq!["sdslot"@] + all_shell_quoted(cmd.args()), " "@)
    } else {
        "starting "@ + cmd.label() + "…"@
    }
}

/// The line that a started command logs.
pub fn start_line(cmd: &CliCommand, developer: bool) -> (r: String)
    ensures
        r@ == start_text(cmd@, developer),
{
    if developer {
        let args = cmd.to_args();
        let line = equivalent_command(&args);
        cat2("$ ", &line)
    } else {
        cat3("starting ", cmd.label(), "…")
    }
}

/// A write, of one slot or of the selection, touches no slot that its dialog
/// did not list as present.
pub proof fn only_listed_slots_are_written(
    planned: Seq<PlannedWriteView>,
    k: SlotKeyView,
)
    requires
        present(planned).contains(k),
    ensures
        exists|i: int|
            0 <= i < planned.len() && !(#[trigger] planned[i]).missing && (
                planned[i].bank,
                planned[i].unit,
            ) == k,
    decreases planned.len(),
{
    if planned.len() > 0 {
        let front = planned.drop_last();
        let before = present(front);
        if before.contains(k) {
            only_listed_slots_are_written(front, k);
            let i = choose|i: int|
                0 <= i < front.len() && !(#[trigger] front[i]).missing && (
                    front[i].bank,
                    front[i].unit,
                ) == k;
            assert(planned[i] == front[i]);
        } else {
            let all = present(planned);
            let j = choose|j: int| 0 <= j < all.len() && all[j] == k;
            if j < before.len() {
                assert(before[j] == k);
            }
            assert(!planned[planned.len() - 1].missing);
        }
    }
}

} // verus!
