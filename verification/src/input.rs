//! The single-line text-input editing engine.
//!
//! `Context` carries the state one field keeps per window: the
//! edit buffer with its advance widths, the anchor/caret selection, the
//! single-level coalescing undo record, the horizontal scroll offset and the
//! viewport rectangle. The host owns the window, the caret, the clipboard
//! and the shaper; it hands decoded events and measured advance widths in,
//! and reads invalidation rectangles and caret geometry back out.

use vstd::prelude::*;

use crate::buffer::{LEN_MAX, StringBuffer, vec_copy_range, vec_insert_all, vec_remove_range};
use crate::geometry::{COORD_MAX, COORD_MIN, Point, Rect};
use crate::shaping::{
    ADV_MAX, WIDTH_MAX, adv_elems_wf, adv_wf, cp_from_x, lemma_width_prefix_mono,
    lemma_width_prefix_nonneg, spec_cp_from_x, sum_prefix, sum_widths, width_prefix, width_total,
};

verus! {

/// What kind of input the field accepts.
#[derive(Clone, Copy, PartialEq, Eq, Structural, Debug)]
pub enum Type {
    Number,
    Text,
    Password,
}

/// A command the field asks its host to route back, the way a control
/// posts clipboard and undo messages to its own window.
#[derive(Clone, Copy, PartialEq, Eq, Structural, Debug)]
pub enum HostCommand {
    Nothing,
    Copy,
    Paste,
    Cut,
    Undo,
}

/// Per-field editing state.
pub struct Context {
    /// Lazily cached content length.
    pub cached_text_length: Option<usize>,
    /// The text, as UTF-16 code units.
    pub buffer: StringBuffer,
    /// One advance width per code unit, measured by the host's shaper.
    pub advances: Vec<i32>,
    /// Horizontal scroll position, in columns.
    pub x_offset: usize,
    /// Number of code units the undo record would remove.
    pub undo_insert_count: usize,
    /// Offset the undo record applies at.
    pub undo_position: usize,
    /// Text the undo record would restore.
    pub undo_buffer: StringBuffer,
    /// Advance widths of `undo_buffer`.
    pub undo_advances: Vec<i32>,
    /// Selection anchor.
    pub selection_start: usize,
    /// Selection caret; may lie before the anchor.
    pub selection_end: usize,
    /// Whether the field currently holds mouse capture.
    pub is_captured: bool,
    /// Whether the field currently has keyboard focus.
    pub is_focused: bool,
    /// The visible single-line viewport rectangle.
    pub format_rect: Rect,
    /// Height of one text line.
    pub line_height: i32,
    /// Average character width, used past the end of the text.
    pub char_width: i32,
    /// Cached total rendered width of the text.
    pub text_width: i32,
    /// The field's input class.
    pub input_type: Type,
    /// Rectangles the host has been asked to repaint and not yet drained.
    pub invalidated: Vec<Rect>,
}

impl Context {
    /// The text content.
    pub open spec fn text(&self) -> Seq<u16> {
        self.buffer@
    }

    /// The advance widths.
    pub open spec fn adv(&self) -> Seq<i32> {
        self.advances@
    }

    /// The content length.
    pub open spec fn text_len(&self) -> int {
        self.buffer@.len() as int
    }

    /// Well-formedness of everything but the selection and scroll bounds.
    /// Mutating operations pass through such states between a splice and
    /// the re-clamping of the selection.
    pub open spec fn wf_base(&self) -> bool {
        &&& self.buffer.wf()
        &&& self.text_len() <= LEN_MAX
        &&& self.advances@.len() == self.text_len()
        &&& adv_wf(self.advances@)
        &&& self.undo_buffer.wf()
        &&& self.undo_buffer@.len() <= LEN_MAX
        &&& self.undo_advances@.len() == self.undo_buffer@.len()
        &&& adv_wf(self.undo_advances@)
        &&& self.undo_position <= LEN_MAX
        // The record's insert count tracks a span inside the buffer.
        &&& self.undo_insert_count <= self.text_len()
        // A pure-deletion record never outgrows what the buffer once held,
        // in length or in rendered width.
        &&& (self.undo_insert_count == 0 && self.undo_buffer@.len() > 0)
            ==> self.undo_buffer@.len() + self.text_len() <= LEN_MAX
        &&& (self.undo_insert_count == 0 && self.undo_buffer@.len() > 0)
            ==> width_total(self.undo_advances@) + width_total(self.advances@) <= WIDTH_MAX
        &&& self.x_offset <= LEN_MAX
        &&& match self.cached_text_length {
            Some(n) => n == self.text_len(),
            None => true,
        }
        &&& self.format_rect.in_range()
        &&& self.format_rect.left <= self.format_rect.right
        &&& 1 <= self.char_width <= ADV_MAX
        &&& 0 <= self.line_height <= ADV_MAX
        &&& self.text_width == width_total(self.advances@)
    }

    /// `wf_base`, with the selection endpoints inside the text.
    pub open spec fn wf_loose(&self) -> bool {
        &&& self.wf_base()
        &&& self.selection_start <= self.text_len()
        &&& self.selection_end <= self.text_len()
    }

    /// The state invariant: selection endpoints and the scroll offset stay
    /// inside the text.
    pub open spec fn wf(&self) -> bool {
        self.wf_loose() && self.x_offset <= self.text_len()
    }

    /// A fresh, empty field.
    pub fn new(input_type: Type, line_height: i32, char_width: i32) -> (r: Context)
        requires
            1 <= char_width <= ADV_MAX,
            0 <= line_height <= ADV_MAX,
        ensures
            r.wf(),
            r.text() =~= Seq::<u16>::empty(),
            r.selection_start == 0,
            r.selection_end == 0,
            r.x_offset == 0,
            r.undo_insert_count == 0,
            r.undo_buffer@ =~= Seq::<u16>::empty(),
            !r.is_captured,
            !r.is_focused,
            r.input_type == input_type,
            r.invalidated@ =~= Seq::<Rect>::empty(),
            r.format_rect == (Rect { left: 0, top: 0, right: 0, bottom: 0 }),
    {
        Context {
            cached_text_length: None,
            buffer: StringBuffer::new(),
            advances: Vec::new(),
            x_offset: 0,
            undo_insert_count: 0,
            undo_position: 0,
            undo_buffer: StringBuffer::new(),
            undo_advances: Vec::new(),
            selection_start: 0,
            selection_end: 0,
            is_captured: false,
            is_focused: false,
            format_rect: Rect::zero(),
            line_height,
            char_width,
            text_width: 0,
            input_type,
            invalidated: Vec::new(),
        }
    }

    /// The content length, cached after the first query.
    pub fn get_text_length(&mut self) -> (r: usize)
        requires
            old(self).wf_base(),
        ensures
            r == old(self).text_len(),
            *final(self) == (Context { cached_text_length: Some(r), ..*old(self) }),
            final(self).wf_base(),
            old(self).wf_loose() ==> final(self).wf_loose(),
            old(self).wf() ==> final(self).wf(),
    {
        let r = match self.cached_text_length {
            None => self.buffer.text_len(),
            Some(n) => n,
        };
        self.cached_text_length = Some(r);
        r
    }

    /// The content, as a fresh vector.
    pub fn get_text(&self) -> (r: Vec<u16>)
        requires
            self.wf_base(),
        ensures
            r@ =~= self.text(),
    {
        self.buffer.to_vec()
    }

    /// Drops the undo record.
    pub fn empty_undo_buffer(&mut self)
        requires
            old(self).undo_buffer.wf(),
        ensures
            *final(self) == (Context {
                undo_insert_count: 0,
                undo_buffer: final(self).undo_buffer,
                undo_advances: final(self).undo_advances,
                ..*old(self)
            }),
            final(self).undo_buffer@ =~= Seq::<u16>::empty(),
            final(self).undo_advances@ =~= Seq::<i32>::empty(),
            final(self).undo_buffer.wf(),
            old(self).wf_base() ==> final(self).wf_base(),
            old(self).wf_loose() ==> final(self).wf_loose(),
            old(self).wf() ==> final(self).wf(),
    {
        self.undo_insert_count = 0;
        self.undo_buffer.empty();
        self.undo_advances = Vec::new();
    }
}

/// The abstract value of a field's editing state: the text and advances,
/// the selection, and the undo record. Scrolling, focus and repaint
/// bookkeeping stay outside the model.
#[verifier::ext_equal]
pub struct EditModel {
    pub text: Seq<u16>,
    pub adv: Seq<i32>,
    pub sel_start: int,
    pub sel_end: int,
    pub undo_text: Seq<u16>,
    pub undo_adv: Seq<i32>,
    pub undo_pos: int,
    pub undo_count: int,
}

impl Context {
    /// The abstract editing state this context holds.
    pub open spec fn model(&self) -> EditModel {
        EditModel {
            text: self.buffer@,
            adv: self.advances@,
            sel_start: self.selection_start as int,
            sel_end: self.selection_end as int,
            undo_text: self.undo_buffer@,
            undo_adv: self.undo_advances@,
            undo_pos: self.undo_position as int,
            undo_count: self.undo_insert_count as int,
        }
    }
}

/// The lower end of a selection, whose endpoints are not normalized.
pub open spec fn sel_lo(m: EditModel) -> int {
    if m.sel_start <= m.sel_end {
        m.sel_start
    } else {
        m.sel_end
    }
}

/// The upper end of a selection, whose endpoints are not normalized.
pub open spec fn sel_hi(m: EditModel) -> int {
    if m.sel_start <= m.sel_end {
        m.sel_end
    } else {
        m.sel_start
    }
}

/// A three-way concatenation adds total widths.
pub proof fn lemma_splice_width(l: Seq<i32>, m: Seq<i32>, r: Seq<i32>)
    ensures
        width_total(l + m + r) == width_total(l) + width_total(m) + width_total(r),
{
    lemma_width_concat(l + m, r);
    lemma_width_concat(l, m);
}

/// The total width of a prefix is the prefix sum.
pub proof fn lemma_width_take(a: Seq<i32>, k: int)
    requires
        0 <= k <= a.len(),
    ensures
        width_total(a.take(k)) == width_prefix(a, k),
{
    crate::shaping::lemma_width_prefix_agree(a.take(k), a, k);
}

/// Pieces of a legal run are legal, with non-negative widths.
pub proof fn lemma_width_nonneg_parts(a: Seq<i32>, lo: int, hi: int)
    requires
        adv_elems_wf(a),
        0 <= lo <= hi <= a.len(),
    ensures
        adv_elems_wf(a.take(lo)),
        adv_elems_wf(a.skip(hi)),
        adv_elems_wf(a.subrange(lo, hi)),
        width_total(a.take(lo)) >= 0,
        width_total(a.skip(hi)) >= 0,
        width_total(a.subrange(lo, hi)) >= 0,
{
    assert forall|i: int| 0 <= i < a.take(lo).len() implies 0 <= #[trigger] a.take(lo)[i]
        <= ADV_MAX by {}
    assert forall|i: int| 0 <= i < a.skip(hi).len() implies 0 <= #[trigger] a.skip(hi)[i]
        <= ADV_MAX by {}
    assert forall|i: int| 0 <= i < a.subrange(lo, hi).len() implies 0 <= #[trigger] a.subrange(
        lo, hi)[i] <= ADV_MAX by {}
    lemma_width_prefix_nonneg(a.take(lo), a.take(lo).len() as int);
    lemma_width_prefix_nonneg(a.skip(hi), a.skip(hi).len() as int);
    lemma_width_prefix_nonneg(a.subrange(lo, hi), a.subrange(lo, hi).len() as int);
}

/// The content of a well-formed buffer is free of terminators, so any part
/// of it can be spliced into another buffer.
pub proof fn lemma_nul_free_view(b: StringBuffer, lo: int, hi: int)
    requires
        b.wf(),
        0 <= lo <= hi <= b@.len(),
    ensures
        forall|i: int| 0 <= i < hi - lo ==> #[trigger] b@.subrange(lo, hi)[i] != 0,
        forall|i: int| 0 <= i < b@.len() ==> #[trigger] b@[i] != 0,
{
    assert forall|i: int| 0 <= i < b@.len() implies #[trigger] b@[i] != 0 by {
        assert(b@[i] == b.0@[i]);
    }
}

/// Concatenating legal runs of advances stays element-legal.
pub proof fn lemma_adv_elems_concat(x: Seq<i32>, y: Seq<i32>)
    requires
        adv_elems_wf(x),
        adv_elems_wf(y),
    ensures
        adv_elems_wf(x + y),
{
    assert forall|i: int| 0 <= i < (x + y).len() implies 0 <= #[trigger] (x + y)[i] <= ADV_MAX
        by {
        if i < x.len() {
            assert((x + y)[i] == x[i]);
        } else {
            assert((x + y)[i] == y[i - x.len()]);
        }
    }
}

/// Concatenation adds total widths.
pub proof fn lemma_width_concat(x: Seq<i32>, y: Seq<i32>)
    ensures
        width_total(x + y) == width_total(x) + width_total(y),
{
    crate::shaping::lemma_width_prefix_concat(x, y, y.len() as int);
}

/// Splitting a run at two points splits its total width.
pub proof fn lemma_width_split3(a: Seq<i32>, lo: int, hi: int)
    requires
        0 <= lo <= hi <= a.len(),
    ensures
        width_total(a) == width_total(a.take(lo)) + width_total(a.subrange(lo, hi))
            + width_total(a.skip(hi)),
{
    assert(a =~= a.take(hi) + a.skip(hi));
    lemma_width_concat(a.take(hi), a.skip(hi));
    assert(a.take(hi) =~= a.take(lo) + a.subrange(lo, hi));
    lemma_width_concat(a.take(lo), a.subrange(lo, hi));
}

/// How many inserted code units the width-limit loop keeps: inserted units
/// are dropped from the tail, one at a time, until the text fits the
/// viewport or none of the insertion is left. `base` is the rendered width
/// of the text around the insertion.
pub open spec fn spec_kept(base: int, radv: Seq<i32>, rl: int, fw: int) -> int
    decreases rl,
{
    if rl <= 0 {
        0
    } else if base + width_prefix(radv, rl) <= fw {
        rl
    } else {
        spec_kept(base, radv, rl - 1, fw)
    }
}

/// The kept count never exceeds the insertion.
pub proof fn lemma_kept_le(base: int, radv: Seq<i32>, rl: int, fw: int)
    ensures
        0 <= spec_kept(base, radv, rl, fw) <= rl || rl < 0,
    decreases rl,
{
    if rl > 0 {
        lemma_kept_le(base, radv, rl - 1, fw);
    }
}

/// What the width-limit loop keeps is exactly the largest prefix of the
/// insertion that fits, or nothing when none fits.
pub proof fn lemma_kept_minimal(base: int, radv: Seq<i32>, rl: int, fw: int)
    requires
        rl >= 0,
    ensures
        forall|j: int| spec_kept(base, radv, rl, fw) < j <= rl
            ==> base + #[trigger] width_prefix(radv, j) > fw,
        spec_kept(base, radv, rl, fw) > 0 ==> base + width_prefix(radv, spec_kept(base, radv,
            rl, fw)) <= fw,
    decreases rl,
{
    if rl > 0 && !(base + width_prefix(radv, rl) <= fw) {
        lemma_kept_minimal(base, radv, rl - 1, fw);
    }
}

/// The number of inserted code units one edit keeps, given the model, the
/// insertion's advances and the viewport width.
pub open spec fn spec_kept_of(m: EditModel, radv: Seq<i32>, rl: int, honor_limit: bool,
    lo: int, hi: int, fw: int) -> int {
    let base = width_total(m.adv.take(lo)) + width_total(m.adv.skip(hi));
    if honor_limit {
        spec_kept(base, radv, rl, fw)
    } else {
        rl
    }
}

/// The editing step `replaceSelection` performs on the abstract state:
/// normalize the selection, splice the replacement in, trim the insertion
/// to the viewport when asked, coalesce or reset the undo record, and put
/// the caret after the kept insertion. An empty replacement over an empty
/// selection changes nothing.
pub open spec fn spec_replace(m: EditModel, repl: Seq<u16>, radv: Seq<i32>, can_undo: bool,
    honor_limit: bool, fw: int) -> EditModel {
    let lo = if m.sel_start <= m.sel_end {
        m.sel_start
    } else {
        m.sel_end
    };
    let hi = if m.sel_start <= m.sel_end {
        m.sel_end
    } else {
        m.sel_start
    };
    if lo == hi && repl.len() == 0 {
        m
    } else {
        let kept = spec_kept_of(m, radv, repl.len() as int, honor_limit, lo, hi, fw);
        let deleted = m.text.subrange(lo, hi);
        let deleted_adv = m.adv.subrange(lo, hi);
        let u1 = spec_undo_after_delete(m, lo, hi, deleted, deleted_adv, can_undo);
        let u2 = spec_undo_after_insert(u1, lo, repl.len() as int, kept, can_undo);
        EditModel {
            text: m.text.take(lo) + repl.take(kept) + m.text.skip(hi),
            adv: m.adv.take(lo) + radv.take(kept) + m.adv.skip(hi),
            sel_start: lo + kept,
            sel_end: lo + kept,
            undo_text: u2.0,
            undo_adv: u2.1,
            undo_pos: u2.2,
            undo_count: u2.3,
        }
    }
}

/// Undo bookkeeping for the deletion half of an edit: a deletion at the
/// recorded position extends a pure-deletion record (append when deleting
/// forward, prepend when deleting backward); anything else starts a fresh
/// record; without undo the record is dropped.
pub open spec fn spec_undo_after_delete(m: EditModel, lo: int, hi: int, deleted: Seq<u16>,
    deleted_adv: Seq<i32>, can_undo: bool) -> (Seq<u16>, Seq<i32>, int, int) {
    if hi == lo {
        (m.undo_text, m.undo_adv, m.undo_pos, m.undo_count)
    } else if !can_undo {
        (Seq::empty(), Seq::empty(), m.undo_pos, 0)
    } else if m.undo_count == 0 && m.undo_text.len() > 0 && lo == m.undo_pos {
        (m.undo_text + deleted, m.undo_adv + deleted_adv, m.undo_pos, 0)
    } else if m.undo_count == 0 && m.undo_text.len() > 0 && hi == m.undo_pos {
        (deleted + m.undo_text, deleted_adv + m.undo_adv, lo, 0)
    } else {
        (deleted, deleted_adv, lo, 0)
    }
}

/// Undo bookkeeping for the insertion half of an edit: an insertion
/// contiguous with the record coalesces by extending the insert count;
/// anything else starts a fresh record; without undo the record is dropped.
pub open spec fn spec_undo_after_insert(u: (Seq<u16>, Seq<i32>, int, int), lo: int, rl: int,
    kept: int, can_undo: bool) -> (Seq<u16>, Seq<i32>, int, int) {
    if rl == 0 {
        u
    } else if !can_undo {
        (Seq::empty(), Seq::empty(), u.2, 0)
    } else if lo == u.2 || (u.3 != 0 && lo == u.2 + u.3) {
        (u.0, u.1, u.2, u.3 + kept)
    } else {
        (Seq::empty(), Seq::empty(), lo, kept)
    }
}

/// After the splice, the trim and the undo bookkeeping of one edit, the
/// state is well-formed again (up to the not-yet-reclamped selection and
/// scroll offset).
proof fn lemma_mid_wf(pre: Context, mid: Context, repl: Seq<u16>, radv: Seq<i32>, lo: int,
    hi: int, kept: int, can_undo: bool)
    requires
        pre.wf(),
        0 <= lo <= hi <= pre.text_len(),
        repl.len() == radv.len(),
        forall|i: int| 0 <= i < repl.len() ==> repl[i] != 0,
        adv_elems_wf(radv),
        0 <= kept <= repl.len(),
        pre.text_len() - (hi - lo) + repl.len() <= LEN_MAX,
        width_total(pre.adv().take(lo)) + width_total(pre.adv().skip(hi)) + width_total(radv)
            <= WIDTH_MAX,
        mid.buffer@ == pre.model().text.take(lo) + repl.take(kept) + pre.model().text.skip(hi),
        mid.advances@ == pre.model().adv.take(lo) + radv.take(kept) + pre.model().adv.skip(hi),
        mid.buffer.wf(),
        mid.undo_buffer.wf(),
        ({
            let u2 = spec_undo_after_insert(spec_undo_after_delete(pre.model(), lo, hi,
                pre.model().text.subrange(lo, hi), pre.model().adv.subrange(lo, hi), can_undo),
                lo, repl.len() as int, kept, can_undo);
            &&& mid.undo_buffer@ == u2.0
            &&& mid.undo_advances@ == u2.1
            &&& mid.undo_position as int == u2.2
            &&& mid.undo_insert_count as int == u2.3
        }),
        mid.cached_text_length is None,
        mid.text_width == width_total(mid.advances@),
        mid.format_rect == pre.format_rect,
        mid.char_width == pre.char_width,
        mid.line_height == pre.line_height,
        mid.x_offset == pre.x_offset,
    ensures
        mid.wf_base(),
{
    let m = pre.model();
    let deleted = m.text.subrange(lo, hi);
    let deleted_adv = m.adv.subrange(lo, hi);
    let u1 = spec_undo_after_delete(m, lo, hi, deleted, deleted_adv, can_undo);
    let u2 = spec_undo_after_insert(u1, lo, repl.len() as int, kept, can_undo);

    lemma_width_split3(m.adv, lo, hi);
    lemma_width_nonneg_parts(m.adv, lo, hi);
    lemma_width_take(radv, kept);
    lemma_width_prefix_mono(radv, kept, radv.len() as int);
    lemma_width_prefix_nonneg(radv, kept);
    lemma_splice_width(m.adv.take(lo), radv.take(kept), m.adv.skip(hi));
    lemma_width_prefix_nonneg(pre.undo_advances@, pre.undo_advances@.len() as int);
    lemma_width_concat(m.undo_adv, deleted_adv);
    lemma_width_concat(deleted_adv, m.undo_adv);

    // The spliced advances are a legal run again.
    assert(adv_elems_wf(radv.take(kept)));
    assert forall|i: int| 0 <= i < mid.advances@.len() implies 0 <= #[trigger] mid.advances@[i]
        <= ADV_MAX by {
        if i < lo {
            assert(mid.advances@[i] == m.adv.take(lo)[i]);
            assert(m.adv.take(lo)[i] == m.adv[i]);
        } else if i < lo + kept {
            assert(mid.advances@[i] == radv.take(kept)[i - lo]);
        } else {
            assert(mid.advances@[i] == m.adv.skip(hi)[i - lo - kept]);
            assert(m.adv.skip(hi)[i - lo - kept] == m.adv[i - lo - kept + hi]);
        }
    }
    assert(width_total(mid.advances@) <= WIDTH_MAX);

    // The undo record stays legal in each bookkeeping case: its advances
    // are always drawn from the old record and the deleted span.
    assert(adv_elems_wf(deleted_adv));
    lemma_adv_elems_concat(m.undo_adv, deleted_adv);
    lemma_adv_elems_concat(deleted_adv, m.undo_adv);
    assert(u1.1 == m.undo_adv || u1.1 == Seq::<i32>::empty() || u1.1 == m.undo_adv + deleted_adv
        || u1.1 == deleted_adv + m.undo_adv || u1.1 == deleted_adv);
    assert(u2.1 == u1.1 || u2.1 == Seq::<i32>::empty());
    assert(adv_elems_wf(u2.1));
    assert(u2.0.len() == u2.1.len());
    assert(u2.0.len() <= LEN_MAX);
    assert(width_total(u2.1) <= WIDTH_MAX);

    // The length and width conservation arguments behind the record caps.
    assert(mid.buffer@.len() == lo + kept + (m.text.len() - hi));
    assert((u2.3 == 0 && u2.0.len() > 0) ==> u2.0.len() + mid.buffer@.len() <= LEN_MAX);
    assert((u2.3 == 0 && u2.0.len() > 0) ==> width_total(u2.1) + width_total(mid.advances@)
        <= WIDTH_MAX);
    assert(u2.3 <= mid.buffer@.len());
}

/// The logical offset a client-area x-coordinate falls on: at the left
/// edge the first visible column; otherwise the shaper's inverse lookup of
/// the scroll-adjusted coordinate, with points left of all text answering
/// the first column.
pub open spec fn spec_char_from_position(c: Context, px: int) -> int {
    let x = px - c.format_rect.left;
    if x == 0 {
        c.x_offset as int
    } else {
        let x_off = if c.text_len() == 0 {
            0
        } else {
            spec_x_scroll(c)
        };
        if x < 0 {
            if x + x_off > 0 && c.text_len() > 0 {
                spec_cp_from_x(c.adv(), x + x_off)
            } else {
                0
            }
        } else {
            if c.text_len() > 0 {
                spec_cp_from_x(c.adv(), x + x_off)
            } else {
                0
            }
        }
    }
}

/// The navigation keys the field reacts to, decoded by the host.
#[derive(Clone, Copy, PartialEq, Eq, Structural, Debug)]
pub enum VirtualKey {
    Left,
    Right,
    Home,
    End,
    Delete,
    Insert,
    A,
    Other,
}

/// What a word-break query asks for.
#[derive(Clone, Copy, PartialEq, Eq, Structural, Debug)]
pub enum WordBreakAction {
    Left,
    Right,
    IsDelimiter,
}

/// The nearest word boundary at or before `i` (a boundary is a column
/// whose logical attributes have the soft-break flag set).
pub open spec fn spec_wb_scan_left(attrs: Seq<u8>, i: int) -> int
    decreases i,
{
    if i <= 0 {
        0
    } else if attrs[i] & 1 != 0 {
        i
    } else {
        spec_wb_scan_left(attrs, i - 1)
    }
}

/// The nearest word boundary at or after `i`, stopping at `count`.
pub open spec fn spec_wb_scan_right(attrs: Seq<u8>, i: int, count: int) -> int
    decreases count - i,
{
    if i >= count {
        count
    } else if attrs[i] & 1 != 0 {
        i
    } else {
        spec_wb_scan_right(attrs, i + 1, count)
    }
}

/// Answers a word-break query over the per-column logical attributes the
/// host's shaper computed (bit zero: a word may break before this column;
/// bit one: the column is whitespace).
pub fn word_break_proc(attrs: &Vec<u8>, index: usize, count: usize, action: WordBreakAction)
    -> (r: usize)
    requires
        count <= attrs@.len(),
        index <= count,
        action is IsDelimiter ==> index < attrs@.len() || attrs@.len() == 0,
    ensures
        attrs@.len() == 0 ==> r == 0,
        attrs@.len() > 0 ==> match action {
            WordBreakAction::Left => r == if index == 0 {
                0int
            } else {
                spec_wb_scan_left(attrs@, index - 1)
            },
            WordBreakAction::Right => r == if count == 0 {
                0int
            } else {
                spec_wb_scan_right(attrs@, index as int, count as int)
            },
            WordBreakAction::IsDelimiter => r == if attrs@[index as int] & 2 != 0 {
                1int
            } else {
                0int
            },
        },
        r <= count || (action is IsDelimiter && r <= 1),
    {
    if attrs.len() == 0 {
        return 0;
    }
    match action {
        WordBreakAction::Left => {
            let mut i = index;
            if i != 0 {
                i = i - 1;
            }
            while i != 0 && attrs[i] & 1 == 0
                invariant
                    0 <= i < attrs@.len(),
                    i <= index,
                    index <= count <= attrs@.len(),
                    index > 0 ==> spec_wb_scan_left(attrs@, index - 1) == spec_wb_scan_left(
                        attrs@, i as int),
                decreases i,
            {
                i = i - 1;
            }
            i
        },
        WordBreakAction::Right => {
            if count == 0 {
                return 0;
            }
            let mut i = index;
            while i < count && attrs[i] & 1 == 0
                invariant
                    index <= i <= count <= attrs@.len(),
                    spec_wb_scan_right(attrs@, index as int, count as int)
                        == spec_wb_scan_right(attrs@, i as int, count as int),
                decreases count - i,
            {
                i = i + 1;
            }
            i
        },
        WordBreakAction::IsDelimiter => {
            if attrs[index] & 2 != 0 {
                1
            } else {
                0
            }
        },
    }
}

/// The first index holding a terminator or a line break, or the length
/// when there is none.
pub open spec fn spec_paste_stop(t: Seq<u16>, i: int) -> int
    decreases t.len() - i,
{
    if i < 0 || i >= t.len() {
        t.len() as int
    } else if t[i] == 0 || t[i] == 10 {
        i
    } else {
        spec_paste_stop(t, i + 1)
    }
}

/// How much of a clipboard text a single-line field accepts: up to the
/// first terminator or line break, dropping a carriage return that stands
/// right before a line break.
pub open spec fn spec_paste_len(t: Seq<u16>) -> int {
    let p = spec_paste_stop(t, 0);
    if p < t.len() && t[p] == 10 && p > 0 && t[p - 1] == 13 {
        p - 1
    } else {
        p
    }
}

/// The accepted prefix of a clipboard text, per `spec_paste_len`.
pub fn paste_text_prefix(text: &Vec<u16>) -> (n: usize)
    ensures
        n == spec_paste_len(text@),
        n <= text@.len(),
        forall|i: int| 0 <= i < n ==> #[trigger] text@[i] != 0,
{
    let mut i: usize = 0;
    let mut stopped_at_break = false;
    while i < text.len()
        invariant
            0 <= i <= text@.len(),
            spec_paste_stop(text@, 0) == spec_paste_stop(text@, i as int),
            forall|k: int| 0 <= k < i ==> #[trigger] text@[k] != 0 && text@[k] != 10,
            !stopped_at_break,
        decreases text@.len() - i,
    {
        let c = text[i];
        if c == 0 || c == 10 {
            if c == 10 && i > 0 && text[i - 1] == 13 {
                return i - 1;
            }
            return i;
        }
        i = i + 1;
    }
    i
}

/// A value clamped into `lo ..= hi`, clamping up to `lo` before clamping
/// down to `hi`.
pub open spec fn spec_clamp_i32(v: int, lo: int, hi: int) -> int {
    let a = if v < lo {
        lo
    } else {
        v
    };
    if a > hi {
        hi
    } else {
        a
    }
}

/// An offset clamped into the text.
pub open spec fn spec_clamp(i: int, len: int) -> int {
    if i <= len {
        i
    } else {
        len
    }
}

/// The editing step `undo` performs on the abstract state: select the span
/// the record says was inserted, put the recorded text back in its place
/// (itself an undoable edit, so undo after undo redoes), and re-select the
/// restored text.
pub open spec fn spec_undo(m: EditModel, fw: int) -> EditModel {
    let len = m.text.len() as int;
    let m1 = EditModel {
        sel_start: spec_clamp(m.undo_pos, len),
        sel_end: spec_clamp(m.undo_pos + m.undo_count, len),
        undo_text: Seq::empty(),
        undo_adv: Seq::empty(),
        ..m
    };
    let m2 = spec_replace(m1, m.undo_text, m.undo_adv, true, true, fw);
    let len2 = m2.text.len() as int;
    EditModel {
        sel_start: spec_clamp(m2.undo_pos, len2),
        sel_end: spec_clamp(m2.undo_pos + m2.undo_count, len2),
        ..m2
    }
}

/// Law: every well-formed field keeps both selection endpoints inside the
/// text; each operation states `wf` of its result, so the bound holds
/// after any sequence of operations.
pub proof fn lemma_selection_within_text(c: Context)
    requires
        c.wf(),
    ensures
        0 <= c.selection_start <= c.text().len(),
        0 <= c.selection_end <= c.text().len(),
{
}

/// Law: a single undoable edit, made with an empty undo record, followed
/// immediately by `undo`, restores the buffer, its advances and the prior
/// selection — whatever was deleted comes back, and whatever the edit
/// inserted (even after width trimming) goes away. It holds for ordered
/// selections whose text currently fits the viewport; the empty edit over
/// an empty selection records nothing, so there is nothing to undo.
#[verifier::rlimit(50)]
pub proof fn lemma_replace_undo_round_trip(m: EditModel, repl: Seq<u16>, radv: Seq<i32>,
    fw: int)
    requires
        0 <= m.sel_start <= m.sel_end <= m.text.len(),
        m.adv.len() == m.text.len(),
        adv_elems_wf(m.adv),
        repl.len() == radv.len(),
        adv_elems_wf(radv),
        m.undo_count == 0,
        m.undo_text.len() == 0,
        m.undo_adv.len() == 0,
        width_total(m.adv) <= fw,
        !(m.sel_start == m.sel_end && repl.len() == 0),
    ensures
        ({
            let r = spec_replace(m, repl, radv, true, true, fw);
            let u = spec_undo(r, fw);
            &&& u.text =~= m.text
            &&& u.adv =~= m.adv
            &&& u.sel_start == m.sel_start
            &&& u.sel_end == m.sel_end
        }),
{
    let s = m.sel_start;
    let e = m.sel_end;
    let t = m.text;
    let rl = repl.len() as int;
    let del = t.subrange(s, e);
    let deladv = m.adv.subrange(s, e);
    lemma_width_split3(m.adv, s, e);
    lemma_width_nonneg_parts(m.adv, s, e);
    let base = width_total(m.adv.take(s)) + width_total(m.adv.skip(e));
    let k = spec_kept(base, radv, rl, fw);
    lemma_kept_le(base, radv, rl, fw);
    let r = spec_replace(m, repl, radv, true, true, fw);
    assert(r.text == t.take(s) + repl.take(k) + t.skip(e));
    assert(r.adv == m.adv.take(s) + radv.take(k) + m.adv.skip(e));
    assert(r.undo_text == del && r.undo_adv == deladv && r.undo_pos == s && r.undo_count == k);
    let len1 = r.text.len() as int;
    assert(len1 == s + k + (t.len() - e));

    let u = spec_undo(r, fw);
    assert(spec_clamp(s, len1) == s);
    assert(spec_clamp(s + k, len1) == s + k);
    let m1 = EditModel {
        sel_start: s,
        sel_end: s + k,
        undo_text: Seq::empty(),
        undo_adv: Seq::empty(),
        ..r
    };
    let m2 = spec_replace(m1, del, deladv, true, true, fw);
    if del.len() == 0 && k == 0 {
        assert(m2 == m1);
        assert(m2.text =~= t);
        assert(m2.adv =~= m.adv);
        assert(m2.undo_pos == s && m2.undo_count == 0);
        assert(u.sel_start == s && u.sel_end == e);
    } else {
        assert(r.adv.take(s) =~= m.adv.take(s));
        assert(r.adv.skip(s + k) =~= m.adv.skip(e));
        let base2 = width_total(m1.adv.take(s)) + width_total(m1.adv.skip(s + k));
        assert(base2 == base);
        assert(width_prefix(deladv, deladv.len() as int) == width_total(deladv));
        let kept2 = spec_kept(base2, deladv, e - s, fw);
        assert(kept2 == e - s) by {
            if e > s {
                assert(base + width_prefix(deladv, e - s) == width_total(m.adv));
            }
        }
        assert(m2.text == m1.text.take(s) + del.take(e - s) + m1.text.skip(s + k));
        assert(del.take(e - s) =~= del);
        assert(m1.text.take(s) =~= t.take(s));
        assert(m1.text.skip(s + k) =~= t.skip(e));
        assert(m2.text =~= t.take(s) + del + t.skip(e));
        assert(m2.text =~= t);
        assert(radv.take(k).len() == k);
        assert(deladv.take(e - s) =~= deladv);
        assert(m1.adv.take(s) =~= m.adv.take(s));
        assert(m1.adv.skip(s + k) =~= m.adv.skip(e));
        assert(m2.adv =~= m.adv.take(s) + deladv + m.adv.skip(e));
        assert(m2.adv =~= m.adv);
        assert(m2.undo_pos == s);
        assert(m2.undo_count == (if e > s { e - s } else { 0 }));
        assert(u.sel_start == spec_clamp(s, m2.text.len() as int));
        assert(u.sel_start == s);
        assert(u.sel_end == e);
    }
    assert(u.text == m2.text && u.adv == m2.adv);
}

impl Context {
    /// Undoes the recorded edit: restores the recorded text over the span
    /// the record says was inserted, and selects the restored text. The
    /// restoring edit is itself recorded, so a second undo redoes it.
    #[verifier::rlimit(50)]
    pub fn on_undo(&mut self)
        requires
            old(self).wf(),
            old(self).text_len() + old(self).undo_buffer@.len() <= LEN_MAX,
            width_total(old(self).adv()) + width_total(old(self).undo_advances@) <= WIDTH_MAX,
        ensures
            final(self).model() =~= spec_undo(old(self).model(),
                old(self).format_rect.right - old(self).format_rect.left),
            *final(self) == (Context {
                cached_text_length: final(self).cached_text_length,
                buffer: final(self).buffer,
                advances: final(self).advances,
                x_offset: final(self).x_offset,
                undo_insert_count: final(self).undo_insert_count,
                undo_position: final(self).undo_position,
                undo_buffer: final(self).undo_buffer,
                undo_advances: final(self).undo_advances,
                selection_start: final(self).selection_start,
                selection_end: final(self).selection_end,
                text_width: final(self).text_width,
                invalidated: final(self).invalidated,
                ..*old(self)
            }),
            final(self).wf(),
            inval_extended(old(self).invalidated@, final(self).invalidated@,
                old(self).format_rect, 9),
    {
        proof {
            lemma_inval_extended_refl(self.invalidated@, self.format_rect, 9);
        }
        let ghost m = old(self).model();
        let ghost fw = old(self).format_rect.right - old(self).format_rect.left;
        let text = self.undo_buffer.to_vec();
        let adv = vec_copy_range(&self.undo_advances, 0, self.undo_advances.len());
        proof {
            assert(text@ =~= old(self).undo_buffer@);
            assert(adv@ =~= old(self).undo_advances@);
        }
        let pos = self.undo_position;
        let count = self.undo_insert_count;
        let _ = self.set_selection(Some(pos), Some(pos + count));
        let ghost s1 = *self;
        self.undo_buffer.empty();
        self.undo_advances = Vec::new();
        proof {
            lemma_nul_free_view(old(self).undo_buffer, 0,
                old(self).undo_buffer@.len() as int);
            assert(self.model() =~= (EditModel {
                sel_start: spec_clamp(m.undo_pos, m.text.len() as int),
                sel_end: spec_clamp(m.undo_pos + m.undo_count, m.text.len() as int),
                undo_text: Seq::empty(),
                undo_adv: Seq::empty(),
                ..m
            }));
        }
        let ghost s2 = *self;
        proof {
            let mm = self.model();
            lemma_width_split3(self.advances@, sel_lo(mm), sel_hi(mm));
            lemma_width_nonneg_parts(self.advances@, sel_lo(mm), sel_hi(mm));
        }
        self.replace_selection(true, &text, &adv, true);
        proof {
            lemma_inval_extended_trans(old(self).invalidated@, s2.invalidated@,
                self.invalidated@, old(self).format_rect, 2, 4);
        }
        let ghost s3 = *self;
        let p2 = self.undo_position;
        let c2 = self.undo_insert_count;
        let _ = self.set_selection(Some(p2), Some(p2 + c2));
        proof {
            lemma_inval_extended_trans(old(self).invalidated@, s3.invalidated@,
                self.invalidated@, old(self).format_rect, 6, 2);
        }
        let ghost s4 = *self;
        self.scroll_caret();
        proof {
            lemma_inval_extended_trans(old(self).invalidated@, s4.invalidated@,
                self.invalidated@, old(self).format_rect, 8, 1);
        }
    }
}

/// The horizontal scroll-bar parameters the host should show.
#[derive(Clone, Copy, PartialEq, Eq, Structural, Debug)]
pub struct ScrollInfo {
    pub min: i32,
    pub max: i32,
    pub page: i32,
    pub pos: i32,
}

impl Context {
    /// The scroll-bar parameters for the current text and viewport: the
    /// range covers the rendered width, the page is the viewport's width,
    /// and the position is the scroll offset in columns.
    pub fn update_scroll_info(&self) -> (r: ScrollInfo)
        requires
            self.wf(),
        ensures
            r.min == 0,
            r.max == self.text_width - 1,
            r.page == self.format_rect.right - self.format_rect.left,
            r.pos == self.x_offset,
    {
        proof {
            lemma_width_prefix_nonneg(self.advances@, self.advances@.len() as int);
        }
        ScrollInfo {
            min: 0,
            max: self.text_width - 1,
            page: self.format_rect.right - self.format_rect.left,
            pos: self.x_offset as i32,
        }
    }

    /// Re-derives the viewport from a freshly measured font and client
    /// area: the viewport is at least one average character wide, the text
    /// line is centred vertically when there is room, and the bottom never
    /// runs into the focus border.
    pub fn adjust_format_rect(&mut self, client_bottom: i32, border_bottom_width: i32)
        requires
            old(self).wf(),
            COORD_MIN + 0x1000 <= client_bottom <= COORD_MAX,
            0 <= border_bottom_width <= 0x1000,
            old(self).format_rect.left <= COORD_MAX - ADV_MAX,
            old(self).format_rect.top <= COORD_MAX - ADV_MAX,
            old(self).format_rect.bottom <= COORD_MAX - ADV_MAX,
            old(self).format_rect.right <= COORD_MAX - ADV_MAX,
        ensures
            ({
                let f = old(self).format_rect;
                let right2: int = if f.right >= f.left + old(self).char_width {
                    f.right as int
                } else {
                    f.left + old(self).char_width
                };
                let yoff = (f.bottom - f.top - old(self).line_height) / 2;
                let top2: int = if yoff > 0 {
                    f.top + yoff
                } else {
                    f.top as int
                };
                let b1 = top2 + old(self).line_height;
                let b2: int = if b1 <= client_bottom - border_bottom_width {
                    b1
                } else {
                    client_bottom - border_bottom_width
                };
                final(self).format_rect == (Rect {
                    left: f.left,
                    top: top2 as i32,
                    right: right2 as i32,
                    bottom: b2 as i32,
                })
            }),
            *final(self) == (Context { format_rect: final(self).format_rect, ..*old(self) }),
            final(self).wf(),
    {
        let mut f = self.format_rect;
        if f.right < f.left + self.char_width {
            f.right = f.left + self.char_width;
        }
        let y_offset = (f.bottom - f.top - self.line_height) / 2;
        if y_offset > 0 {
            f.top = f.top + y_offset;
        }
        f.bottom = f.top + self.line_height;
        if f.bottom > client_bottom - border_bottom_width {
            f.bottom = client_bottom - border_bottom_width;
        }
        self.format_rect = f;
    }

    /// Rebuilds the viewport from the window's client area after a resize
    /// or DPI change: the border is taken off each side (and off the top
    /// and bottom only when the line leaves room), the horizontal padding
    /// comes off both sides, and the result is handed to
    /// `adjust_format_rect`.
    pub fn set_rect_np(&mut self, client_rect: Rect, border_width: i32,
        horizontal_padding: i32, border_bottom_width: i32)
        requires
            old(self).wf(),
            COORD_MIN / 2 <= client_rect.left <= COORD_MAX / 2,
            COORD_MIN / 2 <= client_rect.top <= COORD_MAX / 2,
            COORD_MIN / 2 <= client_rect.right <= COORD_MAX / 2,
            COORD_MIN / 2 + 0x1000 <= client_rect.bottom <= COORD_MAX / 2,
            0 <= border_width <= 0x1000,
            0 <= horizontal_padding <= 0x1000,
            0 <= border_bottom_width <= 0x1000,
        ensures
            ({
                let shrink_y = client_rect.bottom - client_rect.top > old(self).line_height
                    + 2 * border_width;
                let left1 = client_rect.left + border_width + horizontal_padding;
                let right1 = client_rect.right - border_width - horizontal_padding;
                let top1: int = if shrink_y {
                    client_rect.top + border_width
                } else {
                    client_rect.top as int
                };
                let bottom1: int = if shrink_y {
                    client_rect.bottom - border_width
                } else {
                    client_rect.bottom as int
                };
                let right2: int = if right1 >= left1 + old(self).char_width {
                    right1 as int
                } else {
                    left1 + old(self).char_width
                };
                let yoff = (bottom1 - top1 - old(self).line_height) / 2;
                let top2: int = if yoff > 0 {
                    top1 + yoff
                } else {
                    top1
                };
                let b1 = top2 + old(self).line_height;
                let b2: int = if b1 <= client_rect.bottom - border_bottom_width {
                    b1
                } else {
                    client_rect.bottom - border_bottom_width
                };
                final(self).format_rect == (Rect {
                    left: left1 as i32,
                    top: top2 as i32,
                    right: right2 as i32,
                    bottom: b2 as i32,
                })
            }),
            *final(self) == (Context { format_rect: final(self).format_rect, ..*old(self) }),
            final(self).wf(),
    {
        let mut f = client_rect;
        f.left = f.left + border_width;
        f.right = f.right - border_width;
        if f.bottom - f.top > self.line_height + 2 * border_width {
            f.top = f.top + border_width;
            f.bottom = f.bottom - border_width;
        }
        f.left = f.left + horizontal_padding;
        f.right = f.right - horizontal_padding;
        // An over-narrow client area would leave the sides crossed; the
        // width fix-up in `adjust_format_rect` restores the wider of the
        // two right edges either way.
        if f.right < f.left {
            f.right = f.left;
        }
        self.format_rect = f;
        self.adjust_format_rect(client_rect.bottom, border_bottom_width);
    }
}

/// The visual x-coordinate a scroll offset of `o` columns hides to the left
/// of the viewport. Past the end of the text the shaper has no columns, so
/// the average character width stands in for each extra column.
pub open spec fn spec_x_scroll_at(c: Context, o: int) -> int {
    if c.text_len() == 0 {
        0
    } else if o <= c.text_len() {
        width_prefix(c.adv(), o)
    } else {
        width_total(c.adv()) + c.char_width * (o - c.text_len())
    }
}

/// The x-coordinate the current scroll offset hides.
pub open spec fn spec_x_scroll(c: Context) -> int {
    spec_x_scroll_at(c, c.x_offset as int)
}

/// The x-coordinate of the caret when standing at `index`, under a scroll
/// offset of `o` columns.
pub open spec fn spec_caret_x_at(c: Context, index: int, o: int) -> int {
    let idx = if index <= c.text_len() {
        index
    } else {
        c.text_len()
    };
    width_prefix(c.adv(), idx) - spec_x_scroll_at(c, o) + c.format_rect.left
}

/// The x-coordinate of the caret when standing at `index`, relative to the
/// field's client area.
pub open spec fn spec_caret_x(c: Context, index: int) -> int {
    spec_caret_x_at(c, index, c.x_offset as int)
}

/// By how much the hidden width grows when the scroll offset steps from
/// `o - 1` to `o` columns.
pub open spec fn spec_scroll_step(c: Context, o: int) -> int {
    if o <= c.text_len() {
        c.adv()[o - 1] as int
    } else {
        c.char_width as int
    }
}

/// The caret is visible inside the viewport.
pub open spec fn scroll_in_view(c: Context) -> bool {
    c.format_rect.left <= spec_caret_x(c, c.selection_end as int) <= c.format_rect.right
}

/// No single scroll step is wider than a third of the viewport, so the
/// hysteresis band can always be hit.
pub open spec fn scroll_safe(c: Context) -> bool {
    let fw = c.format_rect.right - c.format_rect.left;
    &&& 3 * c.char_width <= fw
    &&& forall|i: int| 0 <= i < c.adv().len() ==> 3 * #[trigger] c.adv()[i] <= fw
}

/// Stepping the scroll offset moves the hidden width by exactly one step.
proof fn lemma_x_scroll_step(c: Context, o: int)
    requires
        c.wf_base(),
        c.text_len() > 0,
        1 <= o,
    ensures
        spec_x_scroll_at(c, o) == spec_x_scroll_at(c, o - 1) + spec_scroll_step(c, o),
{
    let len = c.text_len();
    if o <= len {
    } else if o == len + 1 {
        assert(c.char_width * (o - len) == c.char_width) by (nonlinear_arith)
            requires
                o - len == 1,
        ;
    } else {
        assert(c.char_width * (o - len) == c.char_width * (o - 1 - len) + c.char_width)
            by (nonlinear_arith);
    }
}

/// While the scroll offset stands past the end of the text, the caret is
/// strictly left of the viewport.
proof fn lemma_caret_left_when_offset_past(c: Context, index: int, o: int)
    requires
        c.wf_base(),
        c.text_len() > 0,
        o > c.text_len(),
    ensures
        spec_caret_x_at(c, index, o) <= c.format_rect.left - 1,
{
    let len = c.text_len();
    let idx = if index <= len {
        index
    } else {
        len
    };
    lemma_width_prefix_mono(c.adv(), if idx >= 0 { idx } else { 0 }, len);
    if idx < 0 {
        lemma_width_prefix_nonneg(c.adv(), 0);
    }
    assert(c.char_width * (o - len) >= 1) by (nonlinear_arith)
        requires
            c.char_width >= 1,
            o - len >= 1,
    ;
}

/// `spec_caret_x`, computed without assuming the scroll offset is inside
/// the text; the result can then stray beyond `i32`.
fn caret_x_i64(c: &Context, index: usize) -> (r: i64)
    requires
        c.wf_base(),
    ensures
        r == spec_caret_x(*c, index as int),
{
    let len = c.buffer.text_len();
    let x_off: i64 = if len == 0 {
        0
    } else if c.x_offset <= len {
        sum_prefix(&c.advances, c.x_offset) as i64
    } else {
        let leftover = (c.x_offset - len) as i64;
        proof {
            assert((c.char_width as int) * (leftover as int) <= (ADV_MAX as int) * (LEN_MAX
                as int)) by (nonlinear_arith)
                requires
                    1 <= c.char_width <= ADV_MAX,
                    0 <= leftover <= LEN_MAX,
            ;
            assert((c.char_width as int) * (leftover as int) >= 0) by (nonlinear_arith)
                requires
                    1 <= c.char_width,
                    0 <= leftover,
            ;
        }
        sum_widths(&c.advances) as i64 + (c.char_width as i64) * leftover
    };
    let idx = if index <= len {
        index
    } else {
        len
    };
    let xi = sum_prefix(&c.advances, idx) as i64;
    xi - x_off + c.format_rect.left as i64
}

impl Context {
    /// Converts a logical offset to the caret's client-area coordinates,
    /// accounting for the current horizontal scroll.
    pub fn position_from_char(&self, index: usize) -> (r: Point)
        requires
            self.wf(),
        ensures
            r.x == spec_caret_x(*self, index as int),
            r.y == self.format_rect.top,
    {
        let x = caret_x_i64(self, index);
        proof {
            lemma_width_prefix_nonneg(self.advances@, self.x_offset as int);
            lemma_width_prefix_mono(self.advances@, self.x_offset as int,
                self.advances@.len() as int);
            let idx: int = if index <= self.text_len() {
                index as int
            } else {
                self.text_len()
            };
            lemma_width_prefix_nonneg(self.advances@, idx);
            lemma_width_prefix_mono(self.advances@, idx, self.advances@.len() as int);
        }
        Point { x: x as i32, y: self.format_rect.top }
    }

    /// The rectangle spanned by the columns `start_col .. end_col` on the
    /// single text line; an absent `end_col` reaches the viewport's right
    /// edge. Coordinates are widened so a stale scroll offset cannot wrap.
    fn single_line_span(&self, start_col: usize, end_col: Option<usize>) -> (r: (i64, i64))
        requires
            self.wf_base(),
        ensures
            (r.0 as int, r.1 as int) == spec_single_line_span(*self, start_col as int, match end_col {
                Some(c) => Some(c as int),
                None => None,
            }),
    {
        let pt1: i64 = if start_col == 0 {
            self.format_rect.left as i64
        } else {
            caret_x_i64(self, start_col)
        };
        let pt2: i64 = match end_col {
            None => self.format_rect.right as i64,
            Some(col) => caret_x_i64(self, col),
        };
        let len = self.buffer.text_len();
        let pt3: i64 = if len > 0 && start_col < len {
            sum_prefix(&self.advances, start_col) as i64 + self.format_rect.left as i64
        } else {
            pt1
        };
        let lo = if pt1 <= pt2 { pt1 } else { pt2 };
        let lo = if lo <= pt3 { lo } else { pt3 };
        let hi = if pt1 >= pt2 { pt1 } else { pt2 };
        let hi = if hi >= pt3 { hi } else { pt3 };
        (lo, hi)
    }

    /// Queues a repaint of the span of columns between `start` and `end`,
    /// clipped to the viewport; equal endpoints need no repaint.
    fn invalidate_text(&mut self, start: usize, end: usize)
        requires
            old(self).wf_base(),
        ensures
            *final(self) == (Context { invalidated: final(self).invalidated, ..*old(self) }),
            inval_extended(old(self).invalidated@, final(self).invalidated@,
                old(self).format_rect, 1),
            start == end ==> final(self).invalidated@ == old(self).invalidated@,
            final(self).invalidated@ == old(self).invalidated@ + opt_rect_seq(spec_inval_rect(
                *old(self), start as int, end as int)),
            final(self).wf_base(),
    {
        proof {
            reveal(spec_inval_rect);
            lemma_inval_extended_refl(self.invalidated@, self.format_rect, 1);
            assert(self.invalidated@ + Seq::<Rect>::empty() =~= self.invalidated@);
        }
        if start == end {
            return;
        }
        let actual_start = if start <= end { start } else { end };
        let actual_end = if start >= end { start } else { end };
        let (lo, hi) = self.single_line_span(actual_start, Some(actual_end));
        let top = self.format_rect.top as i64;
        let bottom = top + self.line_height as i64;
        // Intersect with the viewport before handing the rectangle out.
        let left = if lo >= self.format_rect.left as i64 { lo } else { self.format_rect.left as i64 };
        let right = if hi <= self.format_rect.right as i64 { hi } else { self.format_rect.right as i64 };
        let top2 = top;
        let bottom2 = if bottom <= self.format_rect.bottom as i64 { bottom } else { self.format_rect.bottom as i64 };
        let ghost prev = self.invalidated@;
        if left < right && top2 < bottom2 {
            let rect = Rect {
                left: left as i32,
                top: top2 as i32,
                right: right as i32,
                bottom: bottom2 as i32,
            };
            self.invalidated.push(rect);
            proof {
                assert(prev =~= self.invalidated@.take(prev.len() as int));
                assert(self.invalidated@ =~= prev + seq![rect]);
            }
        }
    }
}

/// The raw (unclipped) horizontal span `single_line_span` reports.
pub open spec fn spec_single_line_span(c: Context, start_col: int, end_col: Option<int>) -> (
    int,
    int,
) {
    let pt1 = if start_col == 0 {
        c.format_rect.left as int
    } else {
        spec_caret_x(c, start_col)
    };
    let pt2 = match end_col {
        None => c.format_rect.right as int,
        Some(col) => spec_caret_x(c, col),
    };
    let pt3 = if c.text_len() > 0 && start_col < c.text_len() {
        width_prefix(c.adv(), start_col) + c.format_rect.left
    } else {
        pt1
    };
    (min3(pt1, pt2, pt3), max3(pt1, pt2, pt3))
}

/// A zero-or-one-element repaint batch.
pub open spec fn opt_rect_seq(o: Option<Rect>) -> Seq<Rect> {
    match o {
        Some(r) => seq![r],
        None => Seq::empty(),
    }
}

/// The device rectangle one repaint request for the columns between
/// `start` and `end` resolves to: their span on the text line, clipped to
/// the viewport; nothing for an empty range or a span wholly outside.
#[verifier::opaque]
pub open spec fn spec_inval_rect(c: Context, start: int, end: int) -> Option<Rect> {
    if start == end {
        None
    } else {
        let a = if start <= end {
            start
        } else {
            end
        };
        let b = if start <= end {
            end
        } else {
            start
        };
        let span = spec_single_line_span(c, a, Some(b));
        let left = if span.0 >= c.format_rect.left {
            span.0
        } else {
            c.format_rect.left as int
        };
        let right = if span.1 <= c.format_rect.right {
            span.1
        } else {
            c.format_rect.right as int
        };
        let top = c.format_rect.top as int;
        let bottom0 = c.format_rect.top + c.line_height;
        let bottom = if bottom0 <= c.format_rect.bottom {
            bottom0
        } else {
            c.format_rect.bottom as int
        };
        if left < right && top < bottom {
            Some(Rect {
                left: left as i32,
                top: top as i32,
                right: right as i32,
                bottom: bottom as i32,
            })
        } else {
            None
        }
    }
}

/// The repaint batch over already-sorted boundaries: `ns2` is the least
/// offset and `oe2` the greatest; only the sub-ranges where the old and
/// new selection disagree (at most two; one when they abut) resolve to
/// viewport rectangles.
pub open spec fn spec_sorted_invalidation(c: Context, ns2: int, ne2: int, os2: int,
    oe2: int) -> Seq<Rect> {
    if ne2 != os2 {
        if os2 > ne2 {
            opt_rect_seq(spec_inval_rect(c, ns2, ne2)) + opt_rect_seq(spec_inval_rect(c, os2,
                oe2))
        } else {
            opt_rect_seq(spec_inval_rect(c, ns2, os2)) + opt_rect_seq(spec_inval_rect(c, ne2,
                oe2))
        }
    } else {
        opt_rect_seq(spec_inval_rect(c, ns2, oe2))
    }
}

/// Exactly what a selection change repaints: the four boundary offsets are
/// sorted, and only the sub-ranges where the old and new selection
/// disagree (at most two; one when they abut) are resolved to viewport
/// rectangles. The resolution reads only the text, advances, scroll and
/// viewport of `c`, none of which a selection change touches.
pub open spec fn spec_selection_invalidation(c: Context, os0: int, oe0: int, ns0: int,
    ne0: int) -> Seq<Rect> {
    let ne1 = if ne0 > oe0 {
        oe0
    } else {
        ne0
    };
    let oe1 = if ne0 > oe0 {
        ne0
    } else {
        oe0
    };
    let ns1 = if ns0 > os0 {
        os0
    } else {
        ns0
    };
    let os1 = if ns0 > os0 {
        ns0
    } else {
        os0
    };
    let os2 = if os1 > oe1 {
        oe1
    } else {
        os1
    };
    let oe2 = if os1 > oe1 {
        os1
    } else {
        oe1
    };
    let ns2 = if ns1 > ne1 {
        ne1
    } else {
        ns1
    };
    let ne2 = if ns1 > ne1 {
        ns1
    } else {
        ne1
    };
    spec_sorted_invalidation(c, ns2, ne2, os2, oe2)
}

/// The resolved repaint rectangle does not depend on the selection or the
/// repaint queue, only on the text, advances, scroll and viewport.
proof fn lemma_inval_rect_same(a: Context, b: Context, s: int, e: int)
    requires
        a.buffer == b.buffer,
        a.advances == b.advances,
        a.x_offset == b.x_offset,
        a.format_rect == b.format_rect,
        a.char_width == b.char_width,
        a.line_height == b.line_height,
    ensures
        spec_inval_rect(a, s, e) == spec_inval_rect(b, s, e),
{
    reveal(spec_inval_rect);
    let lo = if s <= e {
        s
    } else {
        e
    };
    let hi = if s <= e {
        e
    } else {
        s
    };
    assert(a.text_len() == b.text_len());
    assert(a.adv() == b.adv());
    assert(spec_x_scroll_at(a, a.x_offset as int) == spec_x_scroll_at(b, b.x_offset as int));
    assert(spec_caret_x(a, lo) == spec_caret_x(b, lo));
    assert(spec_caret_x(a, hi) == spec_caret_x(b, hi));
    assert(spec_single_line_span(a, lo, Some(hi)) == spec_single_line_span(b, lo, Some(hi)));
}

/// The whole repaint batch of a selection change is selection-independent
/// for the same reason each rectangle is.
proof fn lemma_selection_invalidation_same(a: Context, b: Context, os0: int, oe0: int,
    ns0: int, ne0: int)
    requires
        a.buffer == b.buffer,
        a.advances == b.advances,
        a.x_offset == b.x_offset,
        a.format_rect == b.format_rect,
        a.char_width == b.char_width,
        a.line_height == b.line_height,
    ensures
        spec_selection_invalidation(a, os0, oe0, ns0, ne0) == spec_selection_invalidation(b,
            os0, oe0, ns0, ne0),
{
    let ne1 = if ne0 > oe0 {
        oe0
    } else {
        ne0
    };
    let oe1 = if ne0 > oe0 {
        ne0
    } else {
        oe0
    };
    let ns1 = if ns0 > os0 {
        os0
    } else {
        ns0
    };
    let os1 = if ns0 > os0 {
        ns0
    } else {
        os0
    };
    let os2 = if os1 > oe1 {
        oe1
    } else {
        os1
    };
    let oe2 = if os1 > oe1 {
        os1
    } else {
        oe1
    };
    let ns2 = if ns1 > ne1 {
        ne1
    } else {
        ns1
    };
    let ne2 = if ns1 > ne1 {
        ns1
    } else {
        ne1
    };
    lemma_inval_rect_same(a, b, ns2, ne2);
    lemma_inval_rect_same(a, b, os2, oe2);
    lemma_inval_rect_same(a, b, ns2, os2);
    lemma_inval_rect_same(a, b, ne2, oe2);
    lemma_inval_rect_same(a, b, ns2, oe2);
    assert(spec_sorted_invalidation(a, ns2, ne2, os2, oe2) == spec_sorted_invalidation(b, ns2,
        ne2, os2, oe2));
}

/// Least of three values.
pub open spec fn min3(a: int, b: int, c: int) -> int {
    let m = if a <= b {
        a
    } else {
        b
    };
    if m <= c {
        m
    } else {
        c
    }
}

/// Greatest of three values.
pub open spec fn max3(a: int, b: int, c: int) -> int {
    let m = if a >= b {
        a
    } else {
        b
    };
    if m >= c {
        m
    } else {
        c
    }
}

/// `inner` lies inside `outer`.
pub open spec fn rect_within(inner: Rect, outer: Rect) -> bool {
    outer.left <= inner.left && inner.right <= outer.right && outer.top <= inner.top
        && inner.bottom <= outer.bottom && inner.left <= inner.right && inner.top <= inner.bottom
}

/// A legal repaint request: a piece of the viewport, or the viewport itself.
pub open spec fn rect_ok(r: Rect, fmt: Rect) -> bool {
    rect_within(r, fmt) || r == fmt
}

/// The repaint queue `b` extends `a` by at most `k` rectangles, all of them
/// pieces of the viewport `fmt` or the viewport itself.
pub open spec fn inval_extended(a: Seq<Rect>, b: Seq<Rect>, fmt: Rect, k: int) -> bool {
    &&& a.len() <= b.len() <= a.len() + k
    &&& a == b.take(a.len() as int)
    &&& forall|i: int| a.len() <= i < b.len() ==> rect_ok(#[trigger] b[i], fmt)
}

/// Queue extension composes.
pub proof fn lemma_inval_extended_trans(a: Seq<Rect>, b: Seq<Rect>, c: Seq<Rect>, fmt: Rect, m: int, n: int)
    requires
        inval_extended(a, b, fmt, m),
        inval_extended(b, c, fmt, n),
    ensures
        inval_extended(a, c, fmt, m + n),
{
    assert forall|i: int| 0 <= i < a.len() implies a[i] == c[i] by {
        assert(a[i] == b.take(a.len() as int)[i]);
        assert(b[i] == c.take(b.len() as int)[i]);
    }
    assert(a =~= c.take(a.len() as int));
    assert forall|i: int| a.len() <= i < c.len() implies rect_ok(#[trigger] c[i], fmt) by {
        if i < b.len() {
            assert(b[i] == c.take(b.len() as int)[i]);
        }
    }
}

/// An unchanged queue is a (trivial) extension.
pub proof fn lemma_inval_extended_refl(a: Seq<Rect>, fmt: Rect, k: int)
    requires
        k >= 0,
    ensures
        inval_extended(a, a, fmt, k),
{
    assert(a =~= a.take(a.len() as int));
}

/// The selection the pair of requests resolves to: an absent `start` keeps
/// the caret as both endpoints, an absent `end` (with a present `start`)
/// extends to the end of the text, and both endpoints clamp to the text.
pub open spec fn spec_new_sel(c: Context, start: Option<usize>, end: Option<usize>) -> (int, int) {
    let len = c.text_len();
    match start {
        None => (c.selection_end as int, c.selection_end as int),
        Some(s) => (
            if s <= len {
                s as int
            } else {
                len
            },
            match end {
                None => len,
                Some(e) => if e <= len {
                    e as int
                } else {
                    len
                },
            },
        ),
    }
}

impl Context {
    /// Walks the horizontal scroll offset one column at a time until the
    /// caret re-enters the viewport, aiming for a resting point one third of
    /// the viewport's width in from the edge the caret left; the band keeps
    /// the offset still across repeated calls, so scrolling is idempotent
    /// while nothing else changes. A caret already in view moves nothing and
    /// queues no repaint.
    pub fn scroll_caret(&mut self)
        requires
            old(self).wf_base(),
        ensures
            *final(self) == (Context {
                x_offset: final(self).x_offset,
                invalidated: final(self).invalidated,
                ..*old(self)
            }),
            final(self).wf_base(),
            final(self).x_offset <= final(self).text_len(),
            old(self).wf_loose() ==> final(self).wf(),
            inval_extended(old(self).invalidated@, final(self).invalidated@,
                old(self).format_rect, 1),
            old(self).wf() && scroll_in_view(*old(self)) ==> *final(self) == *old(self),
            scroll_safe(*old(self)) ==> scroll_in_view(*final(self)),
    {
        proof {
            lemma_inval_extended_refl(self.invalidated@, self.format_rect, 1);
        }
        let len = self.buffer.text_len();
        if len == 0 {
            self.x_offset = 0;
            return;
        }
        let mut x = caret_x_i64(self, self.selection_end);
        let left = self.format_rect.left as i64;
        let right = self.format_rect.right as i64;
        let fw = self.format_rect.right - self.format_rect.left;
        let ghost sel: int = self.selection_end as int;
        let ghost idx: int = if sel <= len { sel } else { len as int };
        if x < left {
            let goal = left + (fw / 3) as i64;
            proof {
                // A zero offset leaves the caret at or right of the left edge.
                lemma_width_prefix_nonneg(self.advances@, idx);
            }
            loop
                invariant_except_break
                    self.wf_base(),
                    *self == (Context { x_offset: self.x_offset, ..*old(self) }),
                    len == self.text_len(),
                    len > 0,
                    1 <= self.x_offset,
                    left == self.format_rect.left as int,
                    right == self.format_rect.right as int,
                    fw == self.format_rect.right - self.format_rect.left,
                    goal == left + fw / 3,
                    x == spec_caret_x(*self, self.selection_end as int),
                    x < goal,
                ensures
                    self.wf_base(),
                    *self == (Context { x_offset: self.x_offset, ..*old(self) }),
                    self.x_offset <= len,
                    scroll_safe(*old(self)) ==> self.format_rect.left <= spec_caret_x(
                        *self, self.selection_end as int) <= self.format_rect.right,
                decreases self.x_offset,
            {
                let ghost prev = *self;
                let ghost xprev = x as int;
                self.x_offset = self.x_offset - 1;
                x = caret_x_i64(self, self.selection_end);
                proof {
                    lemma_x_scroll_step(*self, self.x_offset + 1);
                    assert(x == xprev + spec_scroll_step(*self, self.x_offset + 1));
                }
                if x >= goal || self.x_offset == 0 {
                    proof {
                        let idx2: int = if self.selection_end <= len {
                            self.selection_end as int
                        } else {
                            len as int
                        };
                        lemma_width_prefix_nonneg(self.advances@, idx2);
                        lemma_width_prefix_mono(self.advances@, idx2, len as int);
                        if x >= goal {
                            if self.x_offset > len {
                                lemma_caret_left_when_offset_past(*self,
                                    self.selection_end as int, self.x_offset as int);
                            }
                            if scroll_safe(*old(self)) {
                                let o: int = self.x_offset + 1;
                                let step = spec_scroll_step(*self, o);
                                assert(self.advances@ == old(self).advances@);
                                if o <= len {
                                    assert(3 * old(self).adv()[o - 1] <= fw);
                                }
                                assert(3 * step <= fw);
                                assert(step <= fw / 3 && fw / 3 + fw / 3 <= fw)
                                    by (nonlinear_arith)
                                    requires
                                        3 * step <= fw,
                                        fw >= 0,
                                ;
                            }
                        }
                    }
                    break;
                }
            }
            self.invalidated.push(self.format_rect);
            proof {
                assert(old(self).invalidated@ =~= self.invalidated@.take(
                    old(self).invalidated@.len() as int));
            }
        } else if x > right {
            let goal = right - (fw / 3) as i64;
            proof {
                // The offset must sit strictly inside the text for the caret
                // to hang past the right edge.
                lemma_width_prefix_mono(self.advances@, if idx >= 0 { idx } else { 0 },
                    len as int);
                if self.x_offset > len {
                    lemma_caret_left_when_offset_past(*self, self.selection_end as int,
                        self.x_offset as int);
                }
            }
            loop
                invariant_except_break
                    self.wf_base(),
                    *self == (Context { x_offset: self.x_offset, ..*old(self) }),
                    len == self.text_len(),
                    len > 0,
                    self.x_offset < len,
                    left == self.format_rect.left as int,
                    right == self.format_rect.right as int,
                    fw == self.format_rect.right - self.format_rect.left,
                    goal == right - fw / 3,
                    x == spec_caret_x(*self, self.selection_end as int),
                    x > goal,
                ensures
                    self.wf_base(),
                    *self == (Context { x_offset: self.x_offset, ..*old(self) }),
                    self.x_offset <= len,
                    scroll_safe(*old(self)) ==> self.format_rect.left <= spec_caret_x(
                        *self, self.selection_end as int) <= self.format_rect.right,
                decreases len - self.x_offset,
            {
                let ghost xprev = x as int;
                self.x_offset = self.x_offset + 1;
                x = caret_x_i64(self, self.selection_end);
                let x_last = caret_x_i64(self, len);
                proof {
                    lemma_x_scroll_step(*self, self.x_offset as int);
                    assert(x == xprev - spec_scroll_step(*self, self.x_offset as int));
                    let idx2: int = if self.selection_end <= len {
                        self.selection_end as int
                    } else {
                        len as int
                    };
                    lemma_width_prefix_nonneg(self.advances@, idx2);
                    lemma_width_prefix_mono(self.advances@, idx2, len as int);
                }
                if x <= goal || x_last <= right {
                    proof {
                        if scroll_safe(*old(self)) {
                            let o: int = self.x_offset as int;
                            let step = spec_scroll_step(*self, o);
                            assert(self.advances@ == old(self).advances@);
                            if o <= len {
                                assert(3 * old(self).adv()[o - 1] <= fw);
                            }
                            assert(3 * step <= fw);
                            assert(step <= fw / 3 && fw / 3 + fw / 3 <= fw) by (nonlinear_arith)
                                requires
                                    3 * step <= fw,
                                    fw >= 0,
                            ;
                        }
                    }
                    break;
                }
                proof {
                    // Still past the band, so the offset has not yet reached
                    // the end of the text.
                    if self.x_offset == len {
                        assert(x <= left);
                    }
                }
            }
            self.invalidated.push(self.format_rect);
            proof {
                assert(old(self).invalidated@ =~= self.invalidated@.take(
                    old(self).invalidated@.len() as int));
            }
        } else {
            proof {
                if self.x_offset > len {
                    lemma_caret_left_when_offset_past(*self, self.selection_end as int,
                        self.x_offset as int);
                }
            }
        }
    }

    /// Replaces the current selection with `replace`, whose advance widths
    /// the host's shaper measured as `replace_advances`: normalizes the
    /// selection, splices the buffer, recomputes the cached line width,
    /// trims the insertion from its tail until the text fits the viewport
    /// when `honor_limit` asks for it, coalesces or resets the undo record,
    /// places the caret after the kept insertion and rescrolls. An empty
    /// replacement over an empty selection does nothing at all, and a
    /// non-undoable edit drops the undo record.
    /// Splices `replace` over the sorted selection range `start .. end`,
    /// drops the shaping caches, recomputes the cached line width, and,
    /// when `honor_limit` asks for it, trims the insertion from its tail
    /// until the text fits the viewport. Returns how many inserted code
    /// units were kept.
    #[verifier::rlimit(50)]
    fn splice_text(&mut self, start: usize, end: usize, replace: &Vec<u16>,
        replace_advances: &Vec<i32>, honor_limit: bool) -> (rl: usize)
        requires
            old(self).wf(),
            start <= end <= old(self).text_len(),
            replace@.len() == replace_advances@.len(),
            forall|i: int| 0 <= i < replace@.len() ==> replace@[i] != 0,
            adv_elems_wf(replace_advances@),
            old(self).text_len() - (end - start) + replace@.len() <= LEN_MAX,
            width_total(old(self).adv().take(start as int)) + width_total(
                old(self).adv().skip(end as int)) + width_total(replace_advances@)
                <= WIDTH_MAX,
        ensures
            ({
                let m0 = old(self).model();
                let lo = start as int;
                let hi = end as int;
                let fw = old(self).format_rect.right - old(self).format_rect.left;
                let kept = spec_kept_of(m0, replace_advances@, replace@.len() as int,
                    honor_limit, lo, hi, fw as int);
                &&& rl == kept
                &&& 0 <= kept <= replace@.len()
                &&& final(self).buffer@ == m0.text.take(lo) + replace@.take(kept)
                    + m0.text.skip(hi)
                &&& final(self).advances@ == m0.adv.take(lo) + replace_advances@.take(kept)
                    + m0.adv.skip(hi)
            }),
            final(self).buffer.wf(),
            final(self).text_width == width_total(final(self).advances@),
            final(self).cached_text_length is None,
            *final(self) == (Context {
                cached_text_length: None,
                buffer: final(self).buffer,
                advances: final(self).advances,
                text_width: final(self).text_width,
                ..*old(self)
            }),
    {
        let replace_length = replace.len();
        let ghost m0 = old(self).model();
        let ghost lo = start as int;
        let ghost hi = end as int;
        let ghost radv = replace_advances@;

        let ghost b1 = m0.text.take(lo) + m0.text.skip(hi);
        let ghost a1 = m0.adv.take(lo) + m0.adv.skip(hi);
        if end != start {
            self.buffer.remove_range(start, end);
            vec_remove_range(&mut self.advances, start, end);
            self.cached_text_length = None;
        }
        proof {
            assert(self.buffer@ =~= b1);
            assert(self.advances@ =~= a1);
        }
        if replace_length != 0 {
            self.buffer.insert_at(start, replace);
            vec_insert_all(&mut self.advances, start, replace_advances);
            self.cached_text_length = None;
        }
        proof {
            assert(b1.take(lo) =~= m0.text.take(lo));
            assert(b1.skip(lo) =~= m0.text.skip(hi));
            assert(a1.take(lo) =~= m0.adv.take(lo));
            assert(a1.skip(lo) =~= m0.adv.skip(hi));
            assert(self.buffer@ =~= m0.text.take(lo) + replace@ + m0.text.skip(hi));
            assert(self.advances@ =~= m0.adv.take(lo) + radv + m0.adv.skip(hi));
        }
        self.cached_text_length = None;

        let fw = self.format_rect.right - self.format_rect.left;
        let ghost base = width_total(m0.adv.take(lo)) + width_total(m0.adv.skip(hi));
        proof {
            lemma_width_split3(m0.adv, lo, hi);
            lemma_width_prefix_nonneg(m0.adv.subrange(lo, hi),
                m0.adv.subrange(lo, hi).len() as int);
            lemma_splice_width(m0.adv.take(lo), radv, m0.adv.skip(hi));
            lemma_width_take(radv, radv.len() as int);
            lemma_width_nonneg_parts(m0.adv, lo, hi);
        }
        self.text_width = sum_widths(&self.advances);
        let mut rl = replace_length;
        let ghost kept = if honor_limit {
            spec_kept(base, radv, replace_length as int, fw as int)
        } else {
            replace_length as int
        };
        proof {
            assert(replace@.take(replace_length as int) =~= replace@);
            assert(radv.take(replace_length as int) =~= radv);
        }
        if honor_limit && self.text_width > fw {
            while self.text_width > fw && rl > 0
                invariant
                    0 <= rl <= replace_length,
                    replace_length == replace@.len(),
                    replace@.len() == radv.len(),
                    radv == replace_advances@,
                    adv_elems_wf(radv),
                    forall|i: int| 0 <= i < replace@.len() ==> replace@[i] != 0,
                    m0 == old(self).model(),
                    old(self).wf(),
                    lo == start as int,
                    hi == end as int,
                    0 <= lo <= hi <= m0.text.len(),
                    base == width_total(m0.adv.take(lo)) + width_total(m0.adv.skip(hi)),
                    base >= 0,
                    base + width_total(radv) <= WIDTH_MAX,
                    lo + replace@.len() + m0.text.len() - hi <= LEN_MAX,
                    fw == old(self).format_rect.right - old(self).format_rect.left,
                    self.buffer.wf(),
                    self.buffer@ =~= m0.text.take(lo) + replace@.take(rl as int)
                        + m0.text.skip(hi),
                    self.advances@ =~= m0.adv.take(lo) + radv.take(rl as int)
                        + m0.adv.skip(hi),
                    self.text_width == base + width_prefix(radv, rl as int),
                    spec_kept(base, radv, replace_length as int, fw as int) == spec_kept(base,
                        radv, rl as int, fw as int),
                    *self == (Context {
                        cached_text_length: None,
                        buffer: self.buffer,
                        advances: self.advances,
                        text_width: self.text_width,
                        ..*old(self)
                    }),
                decreases rl,
            {
                let ghost bprev = self.buffer@;
                let ghost aprev = self.advances@;
                proof {
                    lemma_width_take(radv, rl as int);
                    lemma_width_prefix_mono(radv, rl as int, radv.len() as int);
                    lemma_width_prefix_nonneg(radv, rl - 1);
                }
                self.buffer.remove_at(start + rl - 1);
                self.advances.remove(start + rl - 1);
                rl = rl - 1;
                proof {
                    assert(self.buffer@ =~= bprev.remove(lo + rl));
                    assert(self.buffer@ =~= m0.text.take(lo) + replace@.take(rl as int)
                        + m0.text.skip(hi));
                    assert(self.advances@ =~= aprev.remove(lo + rl));
                    assert(self.advances@ =~= m0.adv.take(lo) + radv.take(rl as int)
                        + m0.adv.skip(hi));
                    lemma_splice_width(m0.adv.take(lo), radv.take(rl as int),
                        m0.adv.skip(hi));
                    lemma_width_take(radv, rl as int);
                    lemma_width_prefix_mono(radv, rl as int, radv.len() as int);
                }
                self.text_width = sum_widths(&self.advances);
            }
            self.cached_text_length = None;
        }
        proof {
            lemma_kept_le(base, radv, replace_length as int, fw as int);
            assert(rl == kept);
            assert(replace@.take(kept) =~= replace@.take(rl as int));
            assert(radv.take(kept) =~= radv.take(rl as int));
            lemma_splice_width(m0.adv.take(lo), radv.take(rl as int), m0.adv.skip(hi));
            lemma_width_take(radv, rl as int);
        }
        rl
    }

    /// Keeps the undo record across one edit: a deletion at the recorded
    /// position coalesces with a pure-deletion record, an insertion
    /// contiguous with the record extends its insert count, anything else
    /// starts a fresh record, and a non-undoable edit drops it.
    #[verifier::rlimit(50)]
    fn record_undo(&mut self, start: usize, end: usize, deleted_text: &Vec<u16>,
        deleted_adv: &Vec<i32>, replace_length: usize, rl: usize, can_undo: bool)
        requires
            old(self).undo_buffer.wf(),
            old(self).undo_advances@.len() == old(self).undo_buffer@.len(),
            old(self).undo_buffer@.len() <= LEN_MAX,
            old(self).undo_position <= LEN_MAX,
            old(self).undo_insert_count <= LEN_MAX,
            deleted_text@.len() == deleted_adv@.len(),
            forall|i: int| 0 <= i < deleted_text@.len() ==> deleted_text@[i] != 0,
            rl <= replace_length <= LEN_MAX,
            (old(self).undo_insert_count == 0 && old(self).undo_buffer@.len() > 0)
                ==> old(self).undo_buffer@.len() + deleted_text@.len() <= LEN_MAX,
            deleted_text@.len() <= LEN_MAX,
            end == start + deleted_text@.len(),
        ensures
            ({
                let u1 = spec_undo_after_delete(old(self).model(), start as int, end as int,
                    deleted_text@, deleted_adv@, can_undo);
                let u2 = spec_undo_after_insert(u1, start as int, replace_length as int,
                    rl as int, can_undo);
                &&& final(self).undo_buffer@ == u2.0
                &&& final(self).undo_advances@ == u2.1
                &&& final(self).undo_position as int == u2.2
                &&& final(self).undo_insert_count as int == u2.3
            }),
            final(self).undo_buffer.wf(),
            *final(self) == (Context {
                undo_insert_count: final(self).undo_insert_count,
                undo_position: final(self).undo_position,
                undo_buffer: final(self).undo_buffer,
                undo_advances: final(self).undo_advances,
                ..*old(self)
            }),
    {
        let ghost m0 = old(self).model();
        let ghost deleted = deleted_text@;
        let ghost deleted_widths = deleted_adv@;
        let ghost u1 = spec_undo_after_delete(m0, start as int, end as int, deleted,
            deleted_widths, can_undo);
        if end != start {
            if can_undo {
                let undo_text_length = self.undo_buffer.text_len();
                if self.undo_insert_count == 0 && !self.undo_buffer.is_empty()
                    && start == self.undo_position {
                    self.undo_buffer.insert_at(undo_text_length, deleted_text);
                    let at = self.undo_advances.len();
                    vec_insert_all(&mut self.undo_advances, at, deleted_adv);
                    proof {
                        assert(self.undo_buffer@ =~= m0.undo_text + deleted);
                        assert(self.undo_advances@ =~= m0.undo_adv + deleted_widths);
                    }
                } else if self.undo_insert_count == 0 && !self.undo_buffer.is_empty()
                    && end == self.undo_position {
                    self.undo_buffer.insert_at(0, deleted_text);
                    vec_insert_all(&mut self.undo_advances, 0, deleted_adv);
                    self.undo_position = start;
                    proof {
                        assert(self.undo_buffer@ =~= deleted + m0.undo_text);
                        assert(self.undo_advances@ =~= deleted_widths + m0.undo_adv);
                    }
                } else {
                    self.undo_buffer.empty();
                    self.undo_buffer.insert_at(0, deleted_text);
                    self.undo_advances = vec_copy_range(deleted_adv, 0, deleted_adv.len());
                    self.undo_position = start;
                    proof {
                        assert(self.undo_buffer@ =~= deleted);
                        assert(self.undo_advances@ =~= deleted_widths);
                    }
                }
                self.undo_insert_count = 0;
            } else {
                self.empty_undo_buffer();
            }
        }
        proof {
            assert(self.undo_buffer@ =~= u1.0);
            assert(self.undo_advances@ =~= u1.1);
            assert(self.undo_position as int == u1.2);
            assert(self.undo_insert_count as int == u1.3);
        }
        if replace_length != 0 {
            if can_undo {
                if start == self.undo_position || (self.undo_insert_count != 0
                    && start == self.undo_position + self.undo_insert_count) {
                    self.undo_insert_count = self.undo_insert_count + rl;
                } else {
                    self.undo_insert_count = rl;
                    self.undo_buffer.empty();
                    self.undo_advances = Vec::new();
                    self.undo_position = start;
                }
            } else {
                self.empty_undo_buffer();
            }
        }
    }

    /// Replaces the current selection with `replace`, whose advance widths
    /// the host's shaper measured as `replace_advances`: normalizes the
    /// selection, splices the buffer, recomputes the cached line width,
    /// trims the insertion from its tail until the text fits the viewport
    /// when `honor_limit` asks for it, coalesces or resets the undo record,
    /// places the caret after the kept insertion and rescrolls. An empty
    /// replacement over an empty selection does nothing at all, and a
    /// non-undoable edit drops the undo record.
    #[verifier::rlimit(100)]
    pub fn replace_selection(&mut self, can_undo: bool, replace: &Vec<u16>,
        replace_advances: &Vec<i32>, honor_limit: bool)
        requires
            old(self).wf(),
            replace@.len() == replace_advances@.len(),
            forall|i: int| 0 <= i < replace@.len() ==> replace@[i] != 0,
            adv_elems_wf(replace_advances@),
            old(self).text_len() - (sel_hi(old(self).model()) - sel_lo(old(self).model()))
                + replace@.len() <= LEN_MAX,
            width_total(old(self).adv().take(sel_lo(old(self).model()))) + width_total(
                old(self).adv().skip(sel_hi(old(self).model()))) + width_total(
                replace_advances@) <= WIDTH_MAX,
        ensures
            final(self).model() =~= spec_replace(old(self).model(), replace@,
                replace_advances@, can_undo, honor_limit,
                old(self).format_rect.right - old(self).format_rect.left),
            *final(self) == (Context {
                cached_text_length: final(self).cached_text_length,
                buffer: final(self).buffer,
                advances: final(self).advances,
                x_offset: final(self).x_offset,
                undo_insert_count: final(self).undo_insert_count,
                undo_position: final(self).undo_position,
                undo_buffer: final(self).undo_buffer,
                undo_advances: final(self).undo_advances,
                selection_start: final(self).selection_start,
                selection_end: final(self).selection_end,
                text_width: final(self).text_width,
                invalidated: final(self).invalidated,
                ..*old(self)
            }),
            final(self).wf(),
            inval_extended(old(self).invalidated@, final(self).invalidated@,
                old(self).format_rect, 4),
            old(self).selection_start == old(self).selection_end && replace@.len() == 0
                ==> *final(self) == *old(self),
    {
        proof {
            lemma_inval_extended_refl(self.invalidated@, self.format_rect, 4);
        }
        let mut start = self.selection_start;
        let mut end = self.selection_end;
        let replace_length = replace.len();
        if start == end && replace_length == 0 {
            return;
        }
        if start > end {
            let t = start;
            start = end;
            end = t;
        }
        let ghost m0 = old(self).model();
        let ghost lo = start as int;
        let ghost hi = end as int;
        let ghost radv = replace_advances@;
        let ghost fw = old(self).format_rect.right - old(self).format_rect.left;
        let ghost kept = spec_kept_of(m0, radv, replace_length as int, honor_limit, lo, hi,
            fw as int);

        let deleted_text = self.buffer.copy_range(start, end);
        let deleted_adv = vec_copy_range(&self.advances, start, end);
        proof {
            lemma_nul_free_view(old(self).buffer, lo, hi);
        }
        let rl = self.splice_text(start, end, replace, replace_advances, honor_limit);
        let ghost after_splice = *self;
        self.record_undo(start, end, &deleted_text, &deleted_adv, replace_length, rl,
            can_undo);
        proof {
            assert(spec_undo_after_delete(after_splice.model(), lo, hi, deleted_text@,
                deleted_adv@, can_undo) == spec_undo_after_delete(m0, lo, hi,
                m0.text.subrange(lo, hi), m0.adv.subrange(lo, hi), can_undo));
            lemma_mid_wf(*old(self), *self, replace@, radv, lo, hi, kept, can_undo);
        }

        let caret = start + rl;
        let ghost before_sel = *self;
        let _ = self.set_selection(Some(caret), Some(caret));
        let ghost after_sel = *self;
        self.invalidated.push(self.format_rect);
        proof {
            assert(after_sel.invalidated@ =~= self.invalidated@.take(
                after_sel.invalidated@.len() as int));
            lemma_inval_extended_trans(before_sel.invalidated@, after_sel.invalidated@,
                self.invalidated@, before_sel.format_rect, 2, 1);
            lemma_inval_extended_trans(old(self).invalidated@, before_sel.invalidated@,
                self.invalidated@, old(self).format_rect, 0, 3);
        }
        let ghost before_scroll = *self;
        self.scroll_caret();
        proof {
            lemma_inval_extended_trans(old(self).invalidated@, before_scroll.invalidated@,
                self.invalidated@, old(self).format_rect, 3, 1);
            assert(self.model() =~= spec_replace(m0, replace@, radv, can_undo,
                honor_limit, fw as int));
        }
    }

    /// The caret's current client-area position, for the host to place the
    /// system caret and the input-method composition window at.
    pub fn caret_position(&self) -> (r: Point)
        requires
            self.wf(),
        ensures
            r.x == spec_caret_x(*self, self.selection_end as int),
            r.y == self.format_rect.top,
    {
        self.position_from_char(self.selection_end)
    }

    /// Where the host should place the input-method composition window:
    /// at the caret, clipped to the viewport rectangle.
    pub fn update_imm_composition_window(&self) -> (r: (Point, Rect))
        requires
            self.wf(),
        ensures
            r.0.x == spec_caret_x(*self, self.selection_end as int),
            r.0.y == self.format_rect.top,
            r.1 == self.format_rect,
    {
        (self.caret_position(), self.format_rect)
    }

    /// The inverse mapping of `position_from_char`: the logical offset a
    /// client-area point falls on, with trailing-edge disambiguation. A
    /// point at the viewport's left edge answers the first visible column.
    pub fn char_from_position(&self, point: Point) -> (r: usize)
        requires
            self.wf(),
            2 * COORD_MIN <= point.x <= 2 * COORD_MAX,
        ensures
            r == spec_char_from_position(*self, point.x as int),
            r <= self.text_len(),
    {
        let x = point.x - self.format_rect.left;
        if x == 0 {
            return self.x_offset;
        }
        let len = self.buffer.text_len();
        let x_off: i64 = if len == 0 {
            0
        } else {
            sum_prefix(&self.advances, self.x_offset) as i64
        };
        if x < 0 {
            if x as i64 + x_off > 0 && len > 0 {
                cp_from_x(&self.advances, x as i64 + x_off)
            } else {
                0
            }
        } else {
            if len > 0 {
                cp_from_x(&self.advances, x as i64 + x_off)
            } else {
                0
            }
        }
    }

    /// Deletes the current selection, recording it for undo.
    pub fn clear(&mut self)
        requires
            old(self).wf(),
        ensures
            final(self).model() =~= spec_replace(old(self).model(), Seq::empty(), Seq::empty(),
                true, true, old(self).format_rect.right - old(self).format_rect.left),
            *final(self) == (Context {
                cached_text_length: final(self).cached_text_length,
                buffer: final(self).buffer,
                advances: final(self).advances,
                x_offset: final(self).x_offset,
                undo_insert_count: final(self).undo_insert_count,
                undo_position: final(self).undo_position,
                undo_buffer: final(self).undo_buffer,
                undo_advances: final(self).undo_advances,
                selection_start: final(self).selection_start,
                selection_end: final(self).selection_end,
                text_width: final(self).text_width,
                invalidated: final(self).invalidated,
                ..*old(self)
            }),
            final(self).wf(),
            inval_extended(old(self).invalidated@, final(self).invalidated@,
                old(self).format_rect, 4),
    {
        let empty_text: Vec<u16> = Vec::new();
        let empty_adv: Vec<i32> = Vec::new();
        proof {
            let m = self.model();
            lemma_width_split3(self.advances@, sel_lo(m), sel_hi(m));
            lemma_width_nonneg_parts(self.advances@, sel_lo(m), sel_hi(m));
        }
        self.replace_selection(true, &empty_text, &empty_adv, true);
    }

    /// Moves the caret to the end of the text, extending the selection when
    /// `extend` holds, and rescrolls.
    pub fn move_end(&mut self, extend: bool)
        requires
            old(self).wf(),
        ensures
            final(self).selection_start == if extend {
                old(self).selection_start as int
            } else {
                old(self).text_len()
            },
            final(self).selection_end == old(self).text_len(),
            *final(self) == (Context {
                selection_start: final(self).selection_start,
                selection_end: final(self).selection_end,
                x_offset: final(self).x_offset,
                invalidated: final(self).invalidated,
                ..*old(self)
            }),
            final(self).wf(),
            inval_extended(old(self).invalidated@, final(self).invalidated@,
                old(self).format_rect, 3),
    {
        proof {
            lemma_inval_extended_refl(self.invalidated@, self.format_rect, 3);
        }
        let end = self.buffer.text_len();
        let start = if extend {
            self.selection_start
        } else {
            end
        };
        let _ = self.set_selection(Some(start), Some(end));
        let ghost s1 = *self;
        self.scroll_caret();
        proof {
            lemma_inval_extended_trans(old(self).invalidated@, s1.invalidated@,
                self.invalidated@, old(self).format_rect, 2, 1);
        }
    }

    /// Moves the caret to the start of the text, extending the selection
    /// when `extend` holds, and rescrolls.
    pub fn move_home(&mut self, extend: bool)
        requires
            old(self).wf(),
        ensures
            final(self).selection_start == if extend {
                old(self).selection_start as int
            } else {
                0
            },
            final(self).selection_end == 0,
            *final(self) == (Context {
                selection_start: final(self).selection_start,
                selection_end: final(self).selection_end,
                x_offset: final(self).x_offset,
                invalidated: final(self).invalidated,
                ..*old(self)
            }),
            final(self).wf(),
            inval_extended(old(self).invalidated@, final(self).invalidated@,
                old(self).format_rect, 3),
    {
        proof {
            lemma_inval_extended_refl(self.invalidated@, self.format_rect, 3);
        }
        let start = if extend {
            self.selection_start
        } else {
            0
        };
        let _ = self.set_selection(Some(start), Some(0));
        let ghost s1 = *self;
        self.scroll_caret();
        proof {
            lemma_inval_extended_trans(old(self).invalidated@, s1.invalidated@,
                self.invalidated@, old(self).format_rect, 2, 1);
        }
    }

    /// Moves the caret one column forward, stopping at the end of the text,
    /// extending the selection when `extend` holds, and rescrolls.
    pub fn move_forward(&mut self, extend: bool)
        requires
            old(self).wf(),
        ensures
            ({
                let e = if old(self).text_len() > old(self).selection_end {
                    old(self).selection_end + 1
                } else {
                    old(self).selection_end as int
                };
                &&& final(self).selection_end == e
                &&& final(self).selection_start == if extend {
                    old(self).selection_start as int
                } else {
                    e
                }
            }),
            *final(self) == (Context {
                selection_start: final(self).selection_start,
                selection_end: final(self).selection_end,
                x_offset: final(self).x_offset,
                invalidated: final(self).invalidated,
                ..*old(self)
            }),
            final(self).wf(),
            inval_extended(old(self).invalidated@, final(self).invalidated@,
                old(self).format_rect, 3),
    {
        proof {
            lemma_inval_extended_refl(self.invalidated@, self.format_rect, 3);
        }
        let mut e = self.selection_end;
        if self.buffer.text_len() > e {
            e = e + 1;
        }
        let start = if extend {
            self.selection_start
        } else {
            e
        };
        let _ = self.set_selection(Some(start), Some(e));
        let ghost s1 = *self;
        self.scroll_caret();
        proof {
            lemma_inval_extended_trans(old(self).invalidated@, s1.invalidated@,
                self.invalidated@, old(self).format_rect, 2, 1);
        }
    }

    /// Moves the caret one column backward, stopping at the start of the
    /// text, extending the selection when `extend` holds, and rescrolls.
    pub fn move_backward(&mut self, extend: bool)
        requires
            old(self).wf(),
        ensures
            ({
                let e = if old(self).selection_end > 0 {
                    old(self).selection_end - 1
                } else {
                    0
                };
                &&& final(self).selection_end == e
                &&& final(self).selection_start == if extend {
                    old(self).selection_start as int
                } else {
                    e
                }
            }),
            *final(self) == (Context {
                selection_start: final(self).selection_start,
                selection_end: final(self).selection_end,
                x_offset: final(self).x_offset,
                invalidated: final(self).invalidated,
                ..*old(self)
            }),
            final(self).wf(),
            inval_extended(old(self).invalidated@, final(self).invalidated@,
                old(self).format_rect, 3),
    {
        proof {
            lemma_inval_extended_refl(self.invalidated@, self.format_rect, 3);
        }
        let mut e = self.selection_end;
        if e > 0 {
            e = e - 1;
        }
        let start = if extend {
            self.selection_start
        } else {
            e
        };
        let _ = self.set_selection(Some(start), Some(e));
        let ghost s1 = *self;
        self.scroll_caret();
        proof {
            lemma_inval_extended_trans(old(self).invalidated@, s1.invalidated@,
                self.invalidated@, old(self).format_rect, 2, 1);
        }
    }

    /// Dispatches one typed character: Backspace deletes the selection (or
    /// the column before an empty one); the clipboard and undo control
    /// characters come back as commands for the host to route, with copy
    /// and cut blocked on password fields; printable characters insert at
    /// the selection, numeric fields accepting only digits.
    #[verifier::rlimit(30)]
    pub fn on_char(&mut self, ch: u16, control: bool, ch_advance: i32) -> (cmd: HostCommand)
        requires
            old(self).wf(),
            0 <= ch_advance <= ADV_MAX,
            old(self).text_len() < LEN_MAX,
            width_total(old(self).adv()) + ch_advance <= WIDTH_MAX,
        ensures
            final(self).wf(),
            *final(self) == (Context {
                cached_text_length: final(self).cached_text_length,
                buffer: final(self).buffer,
                advances: final(self).advances,
                x_offset: final(self).x_offset,
                undo_insert_count: final(self).undo_insert_count,
                undo_position: final(self).undo_position,
                undo_buffer: final(self).undo_buffer,
                undo_advances: final(self).undo_advances,
                selection_start: final(self).selection_start,
                selection_end: final(self).selection_end,
                text_width: final(self).text_width,
                invalidated: final(self).invalidated,
                ..*old(self)
            }),
            inval_extended(old(self).invalidated@, final(self).invalidated@,
                old(self).format_rect, 9),
            ({
                let m = old(self).model();
                let fw = old(self).format_rect.right - old(self).format_rect.left;
                if ch == 8 {
                    &&& cmd == HostCommand::Nothing
                    &&& control ==> *final(self) == *old(self)
                    &&& (!control && m.sel_start != m.sel_end) ==> final(self).model()
                        =~= spec_replace(m, Seq::empty(), Seq::empty(), true, true, fw)
                    &&& (!control && m.sel_start == m.sel_end) ==> final(self).model()
                        =~= spec_replace(EditModel {
                            sel_start: m.sel_end,
                            sel_end: if m.sel_end > 0 { m.sel_end - 1 } else { 0 },
                            ..m
                        }, Seq::empty(), Seq::empty(), true, true, fw)
                } else if ch == 3 {
                    &&& cmd == (if old(self).input_type is Password {
                        HostCommand::Nothing
                    } else {
                        HostCommand::Copy
                    })
                    &&& *final(self) == *old(self)
                } else if ch == 0x16 {
                    cmd == HostCommand::Paste && *final(self) == *old(self)
                } else if ch == 0x18 {
                    &&& cmd == (if old(self).input_type is Password {
                        HostCommand::Nothing
                    } else {
                        HostCommand::Cut
                    })
                    &&& *final(self) == *old(self)
                } else if ch == 0x1A {
                    cmd == HostCommand::Undo && *final(self) == *old(self)
                } else {
                    let accepted = if old(self).input_type is Number {
                        0x30 <= ch <= 0x39
                    } else {
                        ch >= 0x20 && ch != 0x7F
                    };
                    &&& cmd == HostCommand::Nothing
                    &&& accepted ==> final(self).model() =~= spec_replace(m,
                        seq![ch], seq![ch_advance], true, true, fw)
                    &&& !accepted ==> *final(self) == *old(self)
                }
            }),
    {
        proof {
            lemma_inval_extended_refl(self.invalidated@, self.format_rect, 9);
        }
        if ch == 8 {
            if !control {
                if self.selection_start != self.selection_end {
                    self.clear();
                } else {
                    let _ = self.set_selection(None, None);
                    let ghost s1 = *self;
                    self.move_backward(true);
                    let ghost s2 = *self;
                    self.clear();
                    proof {
                        lemma_inval_extended_trans(s1.invalidated@, s2.invalidated@,
                            self.invalidated@, s1.format_rect, 3, 4);
                        lemma_inval_extended_trans(old(self).invalidated@, s1.invalidated@,
                            self.invalidated@, old(self).format_rect, 2, 7);
                    }
                }
            }
            HostCommand::Nothing
        } else if ch == 3 {
            match self.input_type {
                Type::Password => HostCommand::Nothing,
                _ => HostCommand::Copy,
            }
        } else if ch == 0x16 {
            HostCommand::Paste
        } else if ch == 0x18 {
            match self.input_type {
                Type::Password => HostCommand::Nothing,
                _ => HostCommand::Cut,
            }
        } else if ch == 0x1A {
            HostCommand::Undo
        } else {
            let accepted = match self.input_type {
                Type::Number => 0x30 <= ch && ch <= 0x39,
                _ => ch >= 0x20 && ch != 0x7F,
            };
            if accepted {
                let one_text: Vec<u16> = vec![ch];
                let one_adv: Vec<i32> = vec![ch_advance];
                proof {
                    assert(one_text@ =~= seq![ch]);
                    assert(one_adv@ =~= seq![ch_advance]);
                    let m = self.model();
                    lemma_width_split3(self.advances@, sel_lo(m), sel_hi(m));
                    lemma_width_nonneg_parts(self.advances@, sel_lo(m), sel_hi(m));
                    assert(width_total(one_adv@) == ch_advance) by {
                        reveal_with_fuel(width_prefix, 2);
                    }
                }
                self.replace_selection(true, &one_text, &one_adv, true);
            }
            HostCommand::Nothing
        }
    }

    /// Selects the word under the caret, using the word-break attributes
    /// the host's shaper computed for the current text, and captures the
    /// mouse for the double-click drag that may follow.
    pub fn on_double_click(&mut self, attrs: &Vec<u8>)
        requires
            old(self).wf(),
            attrs@.len() == old(self).text_len(),
        ensures
            final(self).is_captured,
            old(self).text_len() > 0 ==> final(self).selection_start == (
                if old(self).selection_end == 0 {
                    0int
                } else {
                    spec_wb_scan_left(attrs@, old(self).selection_end - 1)
                }),
            old(self).text_len() > 0 ==> final(self).selection_end == spec_wb_scan_right(
                attrs@, old(self).selection_end as int, old(self).text_len()),
            *final(self) == (Context {
                is_captured: true,
                selection_start: final(self).selection_start,
                selection_end: final(self).selection_end,
                x_offset: final(self).x_offset,
                invalidated: final(self).invalidated,
                ..*old(self)
            }),
            final(self).wf(),
            inval_extended(old(self).invalidated@, final(self).invalidated@,
                old(self).format_rect, 3),
    {
        proof {
            lemma_inval_extended_refl(self.invalidated@, self.format_rect, 3);
        }
        self.is_captured = true;
        let length = self.buffer.text_len();
        let start = word_break_proc(attrs, self.selection_end, length, WordBreakAction::Left);
        let end = word_break_proc(attrs, self.selection_end, length, WordBreakAction::Right);
        let _ = self.set_selection(Some(start), Some(end));
        let ghost s1 = *self;
        self.scroll_caret();
        proof {
            lemma_inval_extended_trans(old(self).invalidated@, s1.invalidated@,
                self.invalidated@, old(self).format_rect, 2, 1);
        }
    }

    /// Begins a mouse selection: captures the mouse, moves the caret to the
    /// clicked column (the click point clamped into the viewport), keeps
    /// the anchor when shift extends, and reports whether the host should
    /// also move the keyboard focus here.
    pub fn on_left_button_down(&mut self, shift: bool, x: i32, y: i32) -> (focus: bool)
        requires
            old(self).wf(),
        ensures
            focus == !old(self).is_focused,
            final(self).is_captured,
            ({
                let cx = spec_clamp_i32(x as int, old(self).format_rect.left as int,
                    old(self).format_rect.right - 1);
                let e = spec_char_from_position(*old(self), cx);
                &&& final(self).selection_end == e
                &&& final(self).selection_start == if shift {
                    old(self).selection_start as int
                } else {
                    e
                }
            }),
            *final(self) == (Context {
                is_captured: true,
                selection_start: final(self).selection_start,
                selection_end: final(self).selection_end,
                x_offset: final(self).x_offset,
                invalidated: final(self).invalidated,
                ..*old(self)
            }),
            final(self).wf(),
            inval_extended(old(self).invalidated@, final(self).invalidated@,
                old(self).format_rect, 3),
    {
        proof {
            lemma_inval_extended_refl(self.invalidated@, self.format_rect, 3);
        }
        self.is_captured = true;
        let mut cx = x;
        if cx < self.format_rect.left {
            cx = self.format_rect.left;
        }
        if cx > self.format_rect.right - 1 {
            cx = self.format_rect.right - 1;
        }
        let mut cy = y;
        if cy < self.format_rect.top {
            cy = self.format_rect.top;
        }
        if cy > self.format_rect.bottom - 1 {
            cy = self.format_rect.bottom - 1;
        }
        let end = self.char_from_position(Point { x: cx, y: cy });
        let start = if shift {
            self.selection_start
        } else {
            end
        };
        let _ = self.set_selection(Some(start), Some(end));
        let ghost s1 = *self;
        self.scroll_caret();
        proof {
            lemma_inval_extended_trans(old(self).invalidated@, s1.invalidated@,
                self.invalidated@, old(self).format_rect, 2, 1);
        }
        !self.is_focused
    }

    /// Ends a mouse selection: releases the capture flag; the host releases
    /// the real capture.
    pub fn on_left_button_up(&mut self)
        requires
            old(self).wf(),
        ensures
            *final(self) == (Context { is_captured: false, ..*old(self) }),
            final(self).wf(),
    {
        if self.is_captured {
            self.is_captured = false;
        }
    }

    /// Extends the selection toward the pointer during a drag; without
    /// capture the move is ignored.
    pub fn on_mouse_move(&mut self, x: i32, y: i32)
        requires
            old(self).wf(),
            COORD_MIN <= x <= COORD_MAX,
            COORD_MIN <= y <= COORD_MAX,
        ensures
            !old(self).is_captured ==> *final(self) == *old(self),
            old(self).is_captured ==> final(self).selection_end == spec_char_from_position(
                *old(self), x as int) && final(self).selection_start == old(
                self).selection_start,
            *final(self) == (Context {
                selection_start: final(self).selection_start,
                selection_end: final(self).selection_end,
                x_offset: final(self).x_offset,
                invalidated: final(self).invalidated,
                ..*old(self)
            }),
            final(self).wf(),
            inval_extended(old(self).invalidated@, final(self).invalidated@,
                old(self).format_rect, 3),
    {
        proof {
            lemma_inval_extended_refl(self.invalidated@, self.format_rect, 3);
        }
        if !self.is_captured {
            return;
        }
        let end = self.char_from_position(Point { x, y });
        let _ = self.set_selection(Some(self.selection_start), Some(end));
        let ghost s1 = *self;
        self.scroll_caret();
        proof {
            lemma_inval_extended_trans(old(self).invalidated@, s1.invalidated@,
                self.invalidated@, old(self).format_rect, 2, 1);
        }
    }

    /// Dispatches one navigation key: the arrows, Home and End move the
    /// caret (extending the selection while shift is held); Delete removes
    /// the selection, or one column — backward with shift, to the caret
    /// with nothing, nothing at all with control (the collapse still
    /// happens); Shift+Delete over a selection and the Insert chords come
    /// back as clipboard commands for the host to route; Ctrl+A selects
    /// all.
    #[verifier::rlimit(30)]
    pub fn on_key_down(&mut self, key: VirtualKey, shift: bool, control: bool)
        -> (cmd: HostCommand)
        requires
            old(self).wf(),
        ensures
            final(self).wf(),
            *final(self) == (Context {
                cached_text_length: final(self).cached_text_length,
                buffer: final(self).buffer,
                advances: final(self).advances,
                x_offset: final(self).x_offset,
                undo_insert_count: final(self).undo_insert_count,
                undo_position: final(self).undo_position,
                undo_buffer: final(self).undo_buffer,
                undo_advances: final(self).undo_advances,
                selection_start: final(self).selection_start,
                selection_end: final(self).selection_end,
                text_width: final(self).text_width,
                invalidated: final(self).invalidated,
                ..*old(self)
            }),
            inval_extended(old(self).invalidated@, final(self).invalidated@,
                old(self).format_rect, 9),
            ({
                let m = old(self).model();
                let fw = old(self).format_rect.right - old(self).format_rect.left;
                match key {
                    VirtualKey::Left => cmd == HostCommand::Nothing
                        && final(self).selection_end == (if m.sel_end > 0 {
                            m.sel_end - 1
                        } else {
                            0
                        }) && final(self).selection_start == (if shift {
                            m.sel_start
                        } else {
                            final(self).selection_end as int
                        }) && final(self).text() == m.text,
                    VirtualKey::Right => cmd == HostCommand::Nothing
                        && final(self).selection_end == (if m.text.len() > m.sel_end {
                            m.sel_end + 1
                        } else {
                            m.sel_end
                        }) && final(self).selection_start == (if shift {
                            m.sel_start
                        } else {
                            final(self).selection_end as int
                        }) && final(self).text() == m.text,
                    VirtualKey::Home => cmd == HostCommand::Nothing
                        && final(self).selection_end == 0 && final(self).selection_start == (
                        if shift {
                            m.sel_start
                        } else {
                            0
                        }) && final(self).text() == m.text,
                    VirtualKey::End => cmd == HostCommand::Nothing
                        && final(self).selection_end == m.text.len()
                        && final(self).selection_start == (if shift {
                            m.sel_start
                        } else {
                            m.text.len() as int
                        }) && final(self).text() == m.text,
                    VirtualKey::Delete => if shift && control {
                        cmd == HostCommand::Nothing && *final(self) == *old(self)
                    } else if m.sel_start != m.sel_end {
                        if shift {
                            cmd == HostCommand::Cut && *final(self) == *old(self)
                        } else {
                            cmd == HostCommand::Nothing && final(self).model() =~= spec_replace(
                                m, Seq::empty(), Seq::empty(), true, true, fw)
                        }
                    } else {
                        &&& cmd == HostCommand::Nothing
                        &&& shift ==> final(self).model() =~= spec_replace(EditModel {
                            sel_start: m.sel_end,
                            sel_end: if m.sel_end > 0 { m.sel_end - 1 } else { 0 },
                            ..m
                        }, Seq::empty(), Seq::empty(), true, true, fw)
                        &&& (!shift && control) ==> final(self).model() =~= spec_replace(
                            EditModel {
                                sel_start: m.text.len() as int,
                                sel_end: m.text.len() as int,
                                ..m
                            }, Seq::empty(), Seq::empty(), true, true, fw)
                        &&& (!shift && !control) ==> final(self).model() =~= spec_replace(
                            EditModel {
                                sel_start: m.sel_end,
                                sel_end: if m.text.len() > m.sel_end {
                                    m.sel_end + 1
                                } else {
                                    m.sel_end
                                },
                                ..m
                            }, Seq::empty(), Seq::empty(), true, true, fw)
                    },
                    VirtualKey::Insert => *final(self) == *old(self) && cmd == (if shift {
                        HostCommand::Paste
                    } else if control {
                        HostCommand::Copy
                    } else {
                        HostCommand::Nothing
                    }),
                    VirtualKey::A => if control {
                        cmd == HostCommand::Nothing && final(self).selection_start == 0
                            && final(self).selection_end == m.text.len()
                            && final(self).text() == m.text
                    } else {
                        cmd == HostCommand::Nothing && *final(self) == *old(self)
                    },
                    VirtualKey::Other => cmd == HostCommand::Nothing
                        && *final(self) == *old(self),
                }
            }),
    {
        proof {
            lemma_inval_extended_refl(self.invalidated@, self.format_rect, 9);
        }
        match key {
            VirtualKey::Left => {
                self.move_backward(shift);
                HostCommand::Nothing
            },
            VirtualKey::Right => {
                self.move_forward(shift);
                HostCommand::Nothing
            },
            VirtualKey::Home => {
                self.move_home(shift);
                HostCommand::Nothing
            },
            VirtualKey::End => {
                self.move_end(shift);
                HostCommand::Nothing
            },
            VirtualKey::Delete => {
                if shift && control {
                    return HostCommand::Nothing;
                }
                if self.selection_start != self.selection_end {
                    if shift {
                        return HostCommand::Cut;
                    }
                    self.clear();
                    return HostCommand::Nothing;
                }
                let _ = self.set_selection(None, Some(0));
                let ghost s1 = *self;
                if shift {
                    self.move_backward(true);
                } else if control {
                    self.move_end(false);
                } else {
                    self.move_forward(true);
                }
                let ghost s2 = *self;
                self.clear();
                proof {
                    lemma_inval_extended_trans(s1.invalidated@, s2.invalidated@,
                        self.invalidated@, s1.format_rect, 3, 4);
                    lemma_inval_extended_trans(old(self).invalidated@, s1.invalidated@,
                        self.invalidated@, old(self).format_rect, 2, 7);
                }
                HostCommand::Nothing
            },
            VirtualKey::Insert => {
                if shift {
                    HostCommand::Paste
                } else if control {
                    HostCommand::Copy
                } else {
                    HostCommand::Nothing
                }
            },
            VirtualKey::A => {
                if control {
                    let length = self.buffer.text_len();
                    let _ = self.set_selection(Some(0), Some(length));
                }
                HostCommand::Nothing
            },
            VirtualKey::Other => HostCommand::Nothing,
        }
    }

    /// Replaces the whole content programmatically: no undo record is kept
    /// and no width limit applies; afterwards the caret stands at the start
    /// with the viewport unscrolled.
    #[verifier::rlimit(30)]
    pub fn set_text(&mut self, text: &Vec<u16>, advances: &Vec<i32>)
        requires
            old(self).wf(),
            text@.len() == advances@.len(),
            forall|i: int| 0 <= i < text@.len() ==> text@[i] != 0,
            adv_elems_wf(advances@),
            text@.len() <= LEN_MAX,
            width_total(advances@) <= WIDTH_MAX,
        ensures
            final(self).text() =~= text@,
            final(self).adv() =~= advances@,
            final(self).selection_start == 0,
            final(self).selection_end == 0,
            final(self).x_offset == 0,
            old(self).text_len() > 0 || text@.len() > 0 ==> final(self).undo_insert_count == 0
                && final(self).undo_buffer@ =~= Seq::<u16>::empty(),
            *final(self) == (Context {
                cached_text_length: final(self).cached_text_length,
                buffer: final(self).buffer,
                advances: final(self).advances,
                x_offset: 0,
                undo_insert_count: final(self).undo_insert_count,
                undo_position: final(self).undo_position,
                undo_buffer: final(self).undo_buffer,
                undo_advances: final(self).undo_advances,
                selection_start: 0,
                selection_end: 0,
                text_width: final(self).text_width,
                invalidated: final(self).invalidated,
                ..*old(self)
            }),
            final(self).wf(),
            inval_extended(old(self).invalidated@, final(self).invalidated@,
                old(self).format_rect, 9),
    {
        proof {
            lemma_inval_extended_refl(self.invalidated@, self.format_rect, 9);
        }
        let _ = self.set_selection(Some(0), None);
        let ghost s1 = *self;
        proof {
            let m = self.model();
            assert(sel_lo(m) == 0 && sel_hi(m) == self.text_len());
            assert(self.advances@.take(0) =~= Seq::<i32>::empty());
            assert(self.advances@.skip(self.text_len()) =~= Seq::<i32>::empty());
            assert(width_total(Seq::<i32>::empty()) == 0);
        }
        self.replace_selection(false, text, advances, false);
        proof {
            lemma_inval_extended_trans(old(self).invalidated@, s1.invalidated@,
                self.invalidated@, old(self).format_rect, 2, 4);
            assert(self.buffer@ =~= text@);
            assert(self.advances@ =~= advances@);
        }
        self.x_offset = 0;
        let ghost s2 = *self;
        let _ = self.set_selection(Some(0), Some(0));
        proof {
            lemma_inval_extended_trans(old(self).invalidated@, s2.invalidated@,
                self.invalidated@, old(self).format_rect, 6, 2);
        }
        let ghost s3 = *self;
        self.scroll_caret();
        proof {
            lemma_inval_extended_trans(old(self).invalidated@, s3.invalidated@,
                self.invalidated@, old(self).format_rect, 8, 1);
            lemma_width_prefix_nonneg(self.advances@, 0);
        }
    }

    /// Notes the gain of keyboard focus and queues a repaint of the
    /// selection highlight; the host creates the system caret.
    pub fn set_focus(&mut self)
        requires
            old(self).wf(),
        ensures
            *final(self) == (Context {
                is_focused: true,
                invalidated: final(self).invalidated,
                ..*old(self)
            }),
            final(self).wf(),
            inval_extended(old(self).invalidated@, final(self).invalidated@,
                old(self).format_rect, 1),
    {
        self.is_focused = true;
        self.invalidate_text(self.selection_start, self.selection_end);
    }

    /// Notes the loss of keyboard focus and queues a repaint of the
    /// selection highlight; the host destroys the system caret.
    pub fn on_kill_focus(&mut self)
        requires
            old(self).wf(),
        ensures
            *final(self) == (Context {
                is_focused: false,
                invalidated: final(self).invalidated,
                ..*old(self)
            }),
            final(self).wf(),
            inval_extended(old(self).invalidated@, final(self).invalidated@,
                old(self).format_rect, 1),
    {
        self.is_focused = false;
        self.invalidate_text(self.selection_start, self.selection_end);
    }

    /// The selected text, for the host to place on the clipboard. Nothing
    /// comes back for an empty selection, and nothing ever leaves a
    /// password field.
    pub fn on_copy(&self) -> (r: Option<Vec<u16>>)
        requires
            self.wf(),
        ensures
            ({
                let m = self.model();
                match r {
                    Some(v) => !(self.input_type is Password) && sel_lo(m) < sel_hi(m)
                        && v@ =~= m.text.subrange(sel_lo(m), sel_hi(m)),
                    None => self.input_type is Password || sel_lo(m) == sel_hi(m),
                }
            }),
    {
        match self.input_type {
            Type::Password => {
                return None;
            },
            _ => {},
        }
        let start = if self.selection_start <= self.selection_end {
            self.selection_start
        } else {
            self.selection_end
        };
        let end = if self.selection_start <= self.selection_end {
            self.selection_end
        } else {
            self.selection_start
        };
        if end == start {
            return None;
        }
        Some(self.buffer.copy_range(start, end))
    }

    /// Cuts the selection: what `on_copy` reports is handed back for the
    /// clipboard, and the selection is deleted (recorded for undo). A
    /// password field neither reports nor deletes anything.
    pub fn on_cut(&mut self) -> (r: Option<Vec<u16>>)
        requires
            old(self).wf(),
        ensures
            final(self).wf(),
            ({
                let m = old(self).model();
                match r {
                    Some(v) => !(old(self).input_type is Password) && sel_lo(m) < sel_hi(m)
                        && v@ =~= m.text.subrange(sel_lo(m), sel_hi(m)),
                    None => old(self).input_type is Password || sel_lo(m) == sel_hi(m),
                }
            }),
            !(old(self).input_type is Password) ==> final(self).model() =~= spec_replace(
                old(self).model(), Seq::empty(), Seq::empty(), true, true,
                old(self).format_rect.right - old(self).format_rect.left),
            old(self).input_type is Password ==> *final(self) == *old(self),
            *final(self) == (Context {
                cached_text_length: final(self).cached_text_length,
                buffer: final(self).buffer,
                advances: final(self).advances,
                x_offset: final(self).x_offset,
                undo_insert_count: final(self).undo_insert_count,
                undo_position: final(self).undo_position,
                undo_buffer: final(self).undo_buffer,
                undo_advances: final(self).undo_advances,
                selection_start: final(self).selection_start,
                selection_end: final(self).selection_end,
                text_width: final(self).text_width,
                invalidated: final(self).invalidated,
                ..*old(self)
            }),
            inval_extended(old(self).invalidated@, final(self).invalidated@,
                old(self).format_rect, 4),
    {
        proof {
            lemma_inval_extended_refl(self.invalidated@, self.format_rect, 4);
        }
        match self.input_type {
            Type::Password => {
                return None;
            },
            _ => {},
        }
        let r = self.on_copy();
        self.clear();
        r
    }

    /// Inserts clipboard text, truncated for a single-line field: only what
    /// comes before the first terminator or line break is pasted, and a
    /// carriage return just before the line break is dropped with it.
    pub fn on_paste(&mut self, text: &Vec<u16>, advances: &Vec<i32>)
        requires
            old(self).wf(),
            text@.len() == advances@.len(),
            adv_elems_wf(advances@),
            old(self).text_len() + text@.len() <= LEN_MAX,
            width_total(old(self).adv()) + width_total(advances@) <= WIDTH_MAX,
        ensures
            final(self).wf(),
            ({
                let n = spec_paste_len(text@);
                final(self).model() =~= spec_replace(old(self).model(), text@.take(n),
                    advances@.take(n), true, true,
                    old(self).format_rect.right - old(self).format_rect.left)
            }),
            *final(self) == (Context {
                cached_text_length: final(self).cached_text_length,
                buffer: final(self).buffer,
                advances: final(self).advances,
                x_offset: final(self).x_offset,
                undo_insert_count: final(self).undo_insert_count,
                undo_position: final(self).undo_position,
                undo_buffer: final(self).undo_buffer,
                undo_advances: final(self).undo_advances,
                selection_start: final(self).selection_start,
                selection_end: final(self).selection_end,
                text_width: final(self).text_width,
                invalidated: final(self).invalidated,
                ..*old(self)
            }),
            inval_extended(old(self).invalidated@, final(self).invalidated@,
                old(self).format_rect, 4),
    {
        let n = paste_text_prefix(text);
        let prefix = vec_copy_range(text, 0, n);
        let padv = vec_copy_range(advances, 0, n);
        proof {
            assert(prefix@ =~= text@.take(n as int));
            assert(padv@ =~= advances@.take(n as int));
            lemma_width_take(advances@, n as int);
            lemma_width_prefix_mono(advances@, n as int, advances@.len() as int);
            lemma_width_prefix_nonneg(advances@, n as int);
            assert(adv_elems_wf(padv@));
            let m = self.model();
            lemma_width_split3(self.advances@, sel_lo(m), sel_hi(m));
            lemma_width_nonneg_parts(self.advances@, sel_lo(m), sel_hi(m));
        }
        self.replace_selection(true, &prefix, &padv, true);
    }

    /// Moves the selection, clamping both endpoints to the text, and
    /// queues repaints for exactly the parts of the line where the old and
    /// new selection disagree — the four boundaries are sorted and only
    /// the non-overlapping sub-ranges (at most two) are resolved to
    /// viewport-clipped rectangles. Reports whether anything changed; an
    /// unchanged selection does no work at all.
    #[verifier::rlimit(100)]
    pub fn set_selection(&mut self, start: Option<usize>, end: Option<usize>) -> (changed: bool)
        requires
            old(self).wf_base(),
        ensures
            changed == (spec_new_sel(*old(self), start, end) != (
                old(self).selection_start as int,
                old(self).selection_end as int,
            )),
            !changed ==> *final(self) == *old(self),
            final(self).selection_start == spec_new_sel(*old(self), start, end).0,
            final(self).selection_end == spec_new_sel(*old(self), start, end).1,
            *final(self) == (Context {
                selection_start: final(self).selection_start,
                selection_end: final(self).selection_end,
                invalidated: final(self).invalidated,
                ..*old(self)
            }),
            inval_extended(old(self).invalidated@, final(self).invalidated@,
                old(self).format_rect, 2),
            changed ==> final(self).invalidated@ == old(self).invalidated@
                + spec_selection_invalidation(*old(self), old(self).selection_start as int,
                old(self).selection_end as int, spec_new_sel(*old(self), start, end).0,
                spec_new_sel(*old(self), start, end).1),
            final(self).wf_base(),
            old(self).wf_loose() ==> final(self).wf_loose(),
            old(self).wf() ==> final(self).wf(),
            start is Some ==> final(self).wf_loose(),
            start is Some && old(self).x_offset <= old(self).text_len() ==> final(self).wf(),
    {
        proof {
            lemma_inval_extended_refl(self.invalidated@, self.format_rect, 2);
        }
        let mut old_start = self.selection_start;
        let mut old_end = self.selection_end;
        let length = self.buffer.text_len();

        let mut new_start = match start {
            None => self.selection_end,
            Some(s) => if s <= length {
                s
            } else {
                length
            },
        };
        let mut new_end = match start {
            None => self.selection_end,
            Some(_) => match end {
                None => length,
                Some(e) => if e <= length {
                    e
                } else {
                    length
                },
            },
        };
        if old_start == new_start && old_end == new_end {
            return false;
        }

        self.selection_start = new_start;
        self.selection_end = new_end;
        let ghost mid = *self;
        self.queue_selection_repaints(old_start, old_end, new_start, new_end);
        proof {
            lemma_selection_invalidation_same(mid, *old(self), old_start as int,
                old_end as int, new_start as int, new_end as int);
        }
        true
    }

    /// Queues the repaints one selection change needs, given the previous
    /// endpoints and the already-clamped new ones: the four boundaries are
    /// sorted and only the sub-ranges where the two selections disagree
    /// (at most two, one when they abut) are resolved and queued.
    #[verifier::rlimit(100)]
    fn queue_selection_repaints(&mut self, os: usize, oe: usize, ns: usize, ne: usize)
        requires
            old(self).wf_base(),
        ensures
            *final(self) == (Context { invalidated: final(self).invalidated, ..*old(self) }),
            inval_extended(old(self).invalidated@, final(self).invalidated@,
                old(self).format_rect, 2),
            final(self).invalidated@ == old(self).invalidated@ + spec_selection_invalidation(
                *old(self), os as int, oe as int, ns as int, ne as int),
            final(self).wf_base(),
    {
        proof {
            lemma_inval_extended_refl(self.invalidated@, self.format_rect, 2);
        }
        let mut old_start = os;
        let mut old_end = oe;
        let mut new_start = ns;
        let mut new_end = ne;
        // Sort the four boundaries; afterwards `new_start` is the least and
        // `old_end` the greatest, while `new_end` and `old_start` may be in
        // either order.
        if new_end > old_end {
            let t = new_end;
            new_end = old_end;
            old_end = t;
        }
        if new_start > old_start {
            let t = new_start;
            new_start = old_start;
            old_start = t;
        }
        if old_start > old_end {
            let t = old_start;
            old_start = old_end;
            old_end = t;
        }
        if new_start > new_end {
            let t = new_start;
            new_start = new_end;
            new_end = t;
        }
        let ghost mid = *self;
        proof {
            assert(spec_selection_invalidation(*old(self), os as int, oe as int, ns as int,
                ne as int) == spec_sorted_invalidation(*old(self), new_start as int,
                new_end as int, old_start as int, old_end as int));
        }
        if new_end != old_start {
            if old_start > new_end {
                self.invalidate_text(new_start, new_end);
                let ghost m2 = *self;
                self.invalidate_text(old_start, old_end);
                proof {
                    lemma_inval_extended_trans(mid.invalidated@, m2.invalidated@,
                        self.invalidated@, mid.format_rect, 1, 1);
                    lemma_inval_rect_same(m2, *old(self), old_start as int, old_end as int);
                    assert(self.invalidated@ =~= old(self).invalidated@ + (opt_rect_seq(
                        spec_inval_rect(*old(self), new_start as int, new_end as int))
                        + opt_rect_seq(spec_inval_rect(*old(self), old_start as int,
                        old_end as int))));
                }
            } else {
                self.invalidate_text(new_start, old_start);
                let ghost m2 = *self;
                self.invalidate_text(new_end, old_end);
                proof {
                    lemma_inval_extended_trans(mid.invalidated@, m2.invalidated@,
                        self.invalidated@, mid.format_rect, 1, 1);
                    lemma_inval_rect_same(m2, *old(self), new_end as int, old_end as int);
                    assert(self.invalidated@ =~= old(self).invalidated@ + (opt_rect_seq(
                        spec_inval_rect(*old(self), new_start as int, old_start as int))
                        + opt_rect_seq(spec_inval_rect(*old(self), new_end as int,
                        old_end as int))));
                }
            }
        } else {
            self.invalidate_text(new_start, old_end);
            proof {
                assert(self.invalidated@ =~= old(self).invalidated@ + opt_rect_seq(
                    spec_inval_rect(*old(self), new_start as int, old_end as int)));
            }
        }
    }
}

} // verus!
