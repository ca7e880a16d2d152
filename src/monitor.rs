use vstd::prelude::*;

use crate::capture::{frame_accepted, render, rendered, CapturedImage, DisplayOptions, Frame, ImageView};
use crate::error::{XCapError, XCapResult};
use crate::geometry::{nearest_rotation, rect_contains, Rotation};

verus! {

/// One output as the platform's display service reports it.
#[derive(Debug, Clone)]
pub struct RawOutput {
    pub id: u32,
    pub name: String,
    pub x: i32,
    pub y: i32,
    pub width: u32,
    pub height: u32,
    /// Clockwise rotation in degrees, as reported; any angle is accepted.
    pub rotation_degrees: i32,
    /// Backing-store pixels per logical pixel, in thousandths.
    pub scale_factor_permille: u32,
    /// Refresh rate in thousandths of a hertz.
    pub frequency_millihertz: u32,
    /// Whether the platform flags this output as the main one.
    pub is_primary: bool,
}

/// What a monitor descriptor holds.
pub struct MonitorView {
    pub id: u32,
    pub name: Seq<char>,
    pub x: i32,
    pub y: i32,
    pub width: u32,
    pub height: u32,
    pub rotation: Rotation,
    pub scale_factor_permille: u32,
    pub frequency_millihertz: u32,
    pub is_primary: bool,
}

/// A snapshot of one monitor's identity and geometry. The identity is fixed;
/// the logical position and size may be adjusted by the caller.
#[derive(Debug, Clone)]
pub struct Monitor {
    id: u32,
    name: String,
    x: i32,
    y: i32,
    width: u32,
    height: u32,
    rotation: Rotation,
    scale_factor_permille: u32,
    frequency_millihertz: u32,
    is_primary: bool,
}

impl View for Monitor {
    type V = MonitorView;

    closed spec fn view(&self) -> MonitorView {
        MonitorView {
            id: self.id,
            name: self.name@,
            x: self.x,
            y: self.y,
            width: self.width,
            height: self.height,
            rotation: self.rotation,
            scale_factor_permille: self.scale_factor_permille,
            frequency_millihertz: self.frequency_millihertz,
            is_primary: self.is_primary,
        }
    }
}

/// Outputs with no area are disabled ones that the platform still lists.
pub open spec fn has_area(o: RawOutput) -> bool {
    o.width > 0 && o.height > 0
}

/// The outputs that count as monitors, in the platform's order.
pub open spec fn kept(s: Seq<RawOutput>) -> Seq<RawOutput>
    decreases s.len(),
{
    if s.len() == 0 {
        seq![]
    } else if has_area(s.last()) {
        kept(s.drop_last()).push(s.last())
    } else {
        kept(s.drop_last())
    }
}

pub open spec fn ids_unique(k: Seq<RawOutput>) -> bool {
    forall|p: int, q: int| 0 <= p < q < k.len() ==> k[p].id != k[q].id
}

/// Whether position `p` of `k` is the primary monitor: the first output the
/// platform flags as primary, or the first output when none is flagged.
pub open spec fn primary_at(k: Seq<RawOutput>, p: int) -> bool {
    &&& 0 <= p < k.len()
    &&& {
        ||| (k[p].is_primary && forall|j: int| 0 <= j < p ==> !k[j].is_primary)
        ||| (p == 0 && forall|j: int| 0 <= j < k.len() ==> !k[j].is_primary)
    }
}

pub open spec fn monitor_of(o: RawOutput, primary: bool) -> MonitorView {
    MonitorView {
        id: o.id,
        name: o.name@,
        x: o.x,
        y: o.y,
        width: o.width,
        height: o.height,
        rotation: nearest_rotation(o.rotation_degrees as int),
        scale_factor_permille: o.scale_factor_permille,
        frequency_millihertz: o.frequency_millihertz,
        is_primary: primary,
    }
}

/// The monitors that an enumeration over the reported outputs yields.
pub open spec fn enumerated(s: Seq<RawOutput>) -> Seq<MonitorView> {
    let k = kept(s);
    Seq::new(k.len(), |i: int| monitor_of(k[i], primary_at(k, i)))
}

pub open spec fn contains_point(m: MonitorView, px: int, py: int) -> bool {
    rect_contains(m.x as int, m.y as int, m.width as int, m.height as int, px, py)
}

/// Whether position `i` is the monitor a lookup of `(px, py)` picks: one
/// whose rectangle holds the point, the primary one if it does, else the
/// first in order.
pub open spec fn chosen_at(ms: Seq<MonitorView>, px: int, py: int, i: int) -> bool {
    &&& 0 <= i < ms.len()
    &&& contains_point(ms[i], px, py)
    &&& {
        ||| ms[i].is_primary
        ||| {
            &&& forall|j: int|
                0 <= j < ms.len() && contains_point(ms[j], px, py) ==> !ms[j].is_primary
            &&& forall|j: int| 0 <= j < i ==> !contains_point(ms[j], px, py)
        }
    }
}

/// Whether `s[i]` is the first live output with the given id.
pub open spec fn first_live(s: Seq<RawOutput>, id: u32, i: int) -> bool {
    &&& 0 <= i < s.len()
    &&& has_area(s[i]) && s[i].id == id
    &&& forall|j: int| 0 <= j < i ==> !(has_area(s[j]) && s[j].id == id)
}

pub open spec fn is_live(s: Seq<RawOutput>, id: u32) -> bool {
    exists|i: int| 0 <= i < s.len() && has_area(s[i]) && s[i].id == id
}

/// What capturing the monitor with id `id` yields, given the outputs the
/// platform reports now and the framebuffer it handed over.
pub open spec fn captured(
    id: u32,
    s: Seq<RawOutput>,
    frame: Frame,
    options: Option<DisplayOptions>,
) -> Result<ImageView, XCapError> {
    if !is_live(s, id) {
        Err(XCapError::MonitorGone)
    } else if !frame_accepted(frame) {
        Err(XCapError::UnsupportedFormat)
    } else {
        let i = choose|i: int| first_live(s, id, i);
        Ok(rendered(frame, nearest_rotation(s[i].rotation_degrees as int), options))
    }
}

proof fn lemma_kept_take(s: Seq<RawOutput>, i: int)
    requires
        0 <= i < s.len(),
    ensures
        s.take(i + 1).drop_last() == s.take(i),
        s.take(i + 1).last() == s[i],
{
    assert(s.take(i + 1).drop_last() =~= s.take(i));
}

proof fn lemma_kept_has_area(s: Seq<RawOutput>)
    ensures
        forall|i: int| 0 <= i < kept(s).len() ==> has_area(#[trigger] kept(s)[i]),
    decreases s.len(),
{
    if s.len() > 0 {
        lemma_kept_has_area(s.drop_last());
        let k = kept(s.drop_last());
        if has_area(s.last()) {
            assert forall|i: int| 0 <= i < kept(s).len() implies has_area(#[trigger] kept(s)[i]) by {
                if i < k.len() {
                    assert(kept(s)[i] == k[i]);
                }
            }
        }
    }
}

proof fn lemma_primary_unique(k: Seq<RawOutput>, p: int, q: int)
    requires
        primary_at(k, p),
        primary_at(k, q),
    ensures
        p == q,
{
}

proof fn lemma_primary_exists(k: Seq<RawOutput>, n: int)
    requires
        0 < n <= k.len(),
    ensures
        (exists|i: int| 0 <= i < n && k[i].is_primary) ==> exists|p: int|
            0 <= p < n && k[p].is_primary && forall|j: int| 0 <= j < p ==> !k[j].is_primary,
    decreases n,
{
    if n > 1 {
        lemma_primary_exists(k, n - 1);
        if exists|i: int| 0 <= i < n && k[i].is_primary {
            if !(exists|i: int| 0 <= i < n - 1 && k[i].is_primary) {
                assert(k[n - 1].is_primary);
                assert(forall|j: int| 0 <= j < n - 1 ==> !k[j].is_primary);
            }
        }
    }
}

proof fn lemma_first_live_unique(s: Seq<RawOutput>, id: u32, i: int)
    requires
        first_live(s, id, i),
    ensures
        is_live(s, id),
        (choose|j: int| first_live(s, id, j)) == i,
{
    let j = choose|j: int| first_live(s, id, j);
    assert(first_live(s, id, j));
    if j < i {
        assert(!(has_area(s[j]) && s[j].id == id));
    } else if i < j {
        assert(!(has_area(s[i]) && s[i].id == id));
    }
}

/// Exactly one monitor of a non-empty enumeration is the primary one.
pub proof fn lemma_exactly_one_primary(s: Seq<RawOutput>)
    requires
        enumerated(s).len() > 0,
    ensures
        exists|p: int| 0 <= p < enumerated(s).len() && (#[trigger] enumerated(s)[p]).is_primary,
        forall|p: int, q: int|
            0 <= p < enumerated(s).len() && 0 <= q < enumerated(s).len() && (
            #[trigger] enumerated(s)[p]).is_primary && (#[trigger] enumerated(s)[q]).is_primary
                ==> p == q,
{
    let k = kept(s);
    lemma_primary_exists(k, k.len() as int);
    if exists|i: int| 0 <= i < k.len() && k[i].is_primary {
        let p = choose|p: int|
            0 <= p < k.len() && k[p].is_primary && forall|j: int| 0 <= j < p ==> !k[j].is_primary;
        assert(primary_at(k, p));
        assert(enumerated(s)[p].is_primary);
    } else {
        assert(primary_at(k, 0));
        assert(enumerated(s)[0].is_primary);
    }
    assert forall|p: int, q: int|
        0 <= p < enumerated(s).len() && 0 <= q < enumerated(s).len() && (
        #[trigger] enumerated(s)[p]).is_primary && (#[trigger] enumerated(s)[q]).is_primary
            implies p == q by {
        lemma_primary_unique(k, p, q);
    }
}

/// Every monitor of an enumeration has a positive width and height.
pub proof fn lemma_monitors_have_area(s: Seq<RawOutput>)
    ensures
        forall|i: int|
            0 <= i < enumerated(s).len() ==> (#[trigger] enumerated(s)[i]).width > 0
                && enumerated(s)[i].height > 0,
{
    lemma_kept_has_area(s);
    assert forall|i: int| 0 <= i < enumerated(s).len() implies (#[trigger] enumerated(
        s,
    )[i]).width > 0 && enumerated(s)[i].height > 0 by {
        assert(has_area(kept(s)[i]));
    }
}

/// Changing a monitor's logical position changes nothing of what capturing
/// it yields: a capture finds the output by the monitor's id alone.
pub proof fn lemma_capture_ignores_position(
    m: MonitorView,
    x: i32,
    y: i32,
    s: Seq<RawOutput>,
    frame: Frame,
    options: Option<DisplayOptions>,
)
    ensures
        captured(MonitorView { x: x, y: y, ..m }.id, s, frame, options) == captured(
            m.id,
            s,
            frame,
            options,
        ),
{
}

impl Monitor {
    fn from_raw(o: &RawOutput, primary: bool) -> (m: Monitor)
        ensures
            m@ == monitor_of(*o, primary),
    {
        Monitor {
            id: o.id,
            name: o.name.clone(),
            x: o.x,
            y: o.y,
            width: o.width,
            height: o.height,
            rotation: Rotation::from_degrees(o.rotation_degrees),
            scale_factor_permille: o.scale_factor_permille,
            frequency_millihertz: o.frequency_millihertz,
            is_primary: primary,
        }
    }
}

/// Positions in `outputs` of the outputs that count as monitors.
fn kept_indices(outputs: &Vec<RawOutput>) -> (r: Vec<usize>)
    ensures
        r@.len() == kept(outputs@).len(),
        forall|j: int|
            0 <= j < r@.len() ==> #[trigger] r@[j] < outputs@.len() && outputs@[r@[j] as int]
                == kept(outputs@)[j],
{
    let mut r: Vec<usize> = Vec::new();
    let mut i: usize = 0;
    while i < outputs.len()
        invariant
            i <= outputs@.len(),
            r@.len() == kept(outputs@.take(i as int)).len(),
            forall|j: int|
                0 <= j < r@.len() ==> #[trigger] r@[j] < outputs@.len() && outputs@[r@[j] as int]
                    == kept(outputs@.take(i as int))[j],
        decreases outputs@.len() - i,
    {
        proof {
            lemma_kept_take(outputs@, i as int);
        }
        if outputs[i].width > 0 && outputs[i].height > 0 {
            r.push(i);
        }
        i = i + 1;
    }
    assert(outputs@.take(i as int) =~= outputs@);
    r
}

impl Monitor {
    /// The monitors among the outputs the platform reports: outputs with no
    /// area are left out, and exactly one monitor is marked primary. Outputs
    /// that share an id make the report inconsistent, and no list is given.
    pub fn all(outputs: &Vec<RawOutput>) -> (r: XCapResult<Vec<Monitor>>)
        ensures
            r is Ok <==> ids_unique(kept(outputs@)),
            !ids_unique(kept(outputs@)) ==> r == Err::<Vec<Monitor>, XCapError>(
                XCapError::Enumeration,
            ),
            r is Ok ==> r->Ok_0@.len() == enumerated(outputs@).len(),
            r is Ok ==> forall|i: int|
                0 <= i < r->Ok_0@.len() ==> (#[trigger] r->Ok_0@[i])@ == enumerated(outputs@)[i],
            r is Ok ==> forall|i: int|
                0 <= i < r->Ok_0@.len() ==> (#[trigger] r->Ok_0@[i])@.width > 0
                    && r->Ok_0@[i]@.height > 0,
    {
        let idx = kept_indices(outputs);
        let ghost k = kept(outputs@);
        let n: usize = idx.len();
        let mut a: usize = 0;
        while a < n
            invariant
                n == idx@.len() == k.len(),
                k == kept(outputs@),
                a <= n,
                forall|j: int|
                    0 <= j < idx@.len() ==> #[trigger] idx@[j] < outputs@.len() && outputs@[idx@[j] as int]
                        == k[j],
                forall|p: int, q: int| 0 <= p < a && p < q < n ==> k[p].id != k[q].id,
            decreases n - a,
        {
            let mut b: usize = a + 1;
            while b < n
                invariant
                    n == idx@.len() == k.len(),
                    k == kept(outputs@),
                    a < n,
                    a + 1 <= b <= n,
                    forall|j: int|
                        0 <= j < idx@.len() ==> #[trigger] idx@[j] < outputs@.len()
                            && outputs@[idx@[j] as int] == k[j],
                    forall|q: int| a < q < b ==> k[a as int].id != k[q].id,
                decreases n - b,
            {
                if outputs[idx[a]].id == outputs[idx[b]].id {
                    assert(!ids_unique(k)) by {
                        assert(idx@[a as int] < outputs@.len() && idx@[b as int] < outputs@.len());
                    }
                    return Err(XCapError::Enumeration);
                }
                b = b + 1;
            }
            a = a + 1;
        }
        let mut j: usize = 0;
        let mut p: usize = 0;
        let mut found: bool = false;
        while j < n && !found
            invariant
                n == idx@.len() == k.len(),
                j <= n,
                forall|t: int|
                    0 <= t < idx@.len() ==> #[trigger] idx@[t] < outputs@.len()
                        && outputs@[idx@[t] as int] == k[t],
                found ==> p < n && k[p as int].is_primary && forall|t: int|
                    0 <= t < p ==> !k[t].is_primary,
                !found ==> p == 0 && forall|t: int| 0 <= t < j ==> !k[t].is_primary,
            decreases n - j,
        {
            if outputs[idx[j]].is_primary {
                p = j;
                found = true;
            }
            j = j + 1;
        }
        let mut ms: Vec<Monitor> = Vec::new();
        let mut t: usize = 0;
        while t < n
            invariant
                n == idx@.len() == k.len(),
                k == kept(outputs@),
                t <= n,
                n > 0 ==> primary_at(k, p as int),
                forall|u: int|
                    0 <= u < idx@.len() ==> #[trigger] idx@[u] < outputs@.len()
                        && outputs@[idx@[u] as int] == k[u],
                ms@.len() == t,
                forall|u: int| 0 <= u < t ==> (#[trigger] ms@[u])@ == enumerated(outputs@)[u],
            decreases n - t,
        {
            proof {
                if primary_at(k, t as int) {
                    lemma_primary_unique(k, p as int, t as int);
                }
            }
            let m = Monitor::from_raw(&outputs[idx[t]], t == p);
            ms.push(m);
            t = t + 1;
        }
        proof {
            lemma_monitors_have_area(outputs@);
        }
        Ok(ms)
    }

    /// The monitor under the point `(x, y)` of the global coordinate space:
    /// the primary monitor if its rectangle holds the point, else the first
    /// that does. `NotFound` when none does.
    pub fn from_point(outputs: &Vec<RawOutput>, x: i32, y: i32) -> (r: XCapResult<Monitor>)
        ensures
            !ids_unique(kept(outputs@)) ==> r == Err::<Monitor, XCapError>(XCapError::Enumeration),
            ids_unique(kept(outputs@)) ==> (r is Ok <==> exists|i: int|
                0 <= i < enumerated(outputs@).len() && contains_point(
                    #[trigger] enumerated(outputs@)[i],
                    x as int,
                    y as int,
                )),
            ids_unique(kept(outputs@)) && r is Err ==> r == Err::<Monitor, XCapError>(
                XCapError::NotFound,
            ),
            r is Ok ==> exists|i: int|
                chosen_at(enumerated(outputs@), x as int, y as int, i) && r->Ok_0@ == enumerated(
                    outputs@,
                )[i],
    {
        let mut ms = match Monitor::all(outputs) {
            Ok(v) => v,
            Err(e) => {
                return Err(e);
            },
        };
        let ghost en = enumerated(outputs@);
        let n: usize = ms.len();
        let mut i: usize = 0;
        let mut first: usize = n;
        while i < n
            invariant
                n == ms@.len() == en.len(),
                en == enumerated(outputs@),
                ids_unique(kept(outputs@)),
                i <= n,
                forall|u: int| 0 <= u < n ==> (#[trigger] ms@[u])@ == en[u],
                first == n ==> forall|t: int| 0 <= t < i ==> !contains_point(en[t], x as int, y as int),
                first < n ==> first < i && contains_point(en[first as int], x as int, y as int)
                    && forall|t: int| 0 <= t < first ==> !contains_point(en[t], x as int, y as int),
                first <= n,
                forall|t: int|
                    0 <= t < i && contains_point(en[t], x as int, y as int) ==> !en[t].is_primary,
            decreases n - i,
        {
            let m = &ms[i];
            assert(m@ == en[i as int]);
            let inside = (m.x as i64) <= (x as i64) && (x as i64) < (m.x as i64) + (m.width as i64)
                && (m.y as i64) <= (y as i64) && (y as i64) < (m.y as i64) + (m.height as i64);
            if inside {
                if m.is_primary {
                    assert(chosen_at(en, x as int, y as int, i as int));
                    let r = ms.remove(i);
                    return Ok(r);
                }
                if first == n {
                    first = i;
                }
            }
            i = i + 1;
        }
        if first == n {
            Err(XCapError::NotFound)
        } else {
            assert(chosen_at(en, x as int, y as int, first as int));
            let r = ms.remove(first);
            Ok(r)
        }
    }

    /// Captures the monitor. The output is found again among the outputs the
    /// platform reports now, by this monitor's id alone: its logical
    /// position and size play no part. `frame` is what the platform grabbed
    /// from that output; it is decoded, turned upright by the output's
    /// current rotation, then cropped and resampled as `options` ask.
    pub fn capture_image(
        &self,
        outputs: &Vec<RawOutput>,
        frame: &Frame,
        options: Option<DisplayOptions>,
    ) -> (r: XCapResult<CapturedImage>)
        ensures
            match r {
                Ok(img) => captured(self@.id, outputs@, *frame, options) == Ok::<
                    ImageView,
                    XCapError,
                >(img@),
                Err(e) => captured(self@.id, outputs@, *frame, options) == Err::<
                    ImageView,
                    XCapError,
                >(e),
            },
    {
        let mut i: usize = 0;
        while i < outputs.len()
            invariant
                i <= outputs@.len(),
                forall|j: int| 0 <= j < i ==> !(has_area(outputs@[j]) && outputs@[j].id == self.id),
            decreases outputs@.len() - i,
        {
            let o = &outputs[i];
            if o.width > 0 && o.height > 0 && o.id == self.id {
                proof {
                    lemma_first_live_unique(outputs@, self@.id, i as int);
                }
                let rotation = Rotation::from_degrees(o.rotation_degrees);
                return render(frame, rotation, &options);
            }
            i = i + 1;
        }
        Err(XCapError::MonitorGone)
    }
}

impl Monitor {
    /// Identifier of the output; unique among the connected monitors.
    pub fn id(&self) -> (r: u32)
        ensures
            r == self@.id,
    {
        self.id
    }

    /// Name the platform gives the output.
    pub fn name(&self) -> (r: &str)
        ensures
            r@ == self@.name,
    {
        self.name.as_str()
    }

    /// Left edge in the global coordinate space.
    pub fn x(&self) -> (r: i32)
        ensures
            r == self@.x,
    {
        self.x
    }

    /// Top edge in the global coordinate space.
    pub fn y(&self) -> (r: i32)
        ensures
            r == self@.y,
    {
        self.y
    }

    /// Width in logical pixels.
    pub fn width(&self) -> (r: u32)
        ensures
            r == self@.width,
    {
        self.width
    }

    /// Height in logical pixels.
    pub fn height(&self) -> (r: u32)
        ensures
            r == self@.height,
    {
        self.height
    }

    /// Clockwise rotation of the output.
    pub fn rotation(&self) -> (r: Rotation)
        ensures
            r == self@.rotation,
    {
        self.rotation
    }

    /// Backing-store pixels per logical pixel, in thousandths.
    pub fn scale_factor_permille(&self) -> (r: u32)
        ensures
            r == self@.scale_factor_permille,
    {
        self.scale_factor_permille
    }

    /// Refresh rate in thousandths of a hertz.
    pub fn frequency_millihertz(&self) -> (r: u32)
        ensures
            r == self@.frequency_millihertz,
    {
        self.frequency_millihertz
    }

    /// Whether this is the main monitor.
    pub fn is_primary(&self) -> (r: bool)
        ensures
            r == self@.is_primary,
    {
        self.is_primary
    }

    /// Moves the logical left edge; nothing else changes.
    pub fn set_x(&mut self, x: i32)
        ensures
            final(self)@ == (MonitorView { x: x, ..old(self)@ }),
    {
        self.x = x;
    }

    /// Moves the logical top edge; nothing else changes.
    pub fn set_y(&mut self, y: i32)
        ensures
            final(self)@ == (MonitorView { y: y, ..old(self)@ }),
    {
        self.y = y;
    }

    /// Changes the logical width; nothing else changes.
    pub fn set_width(&mut self, width: u32)
        ensures
            final(self)@ == (MonitorView { width: width, ..old(self)@ }),
    {
        self.width = width;
    }

    /// Changes the logical height; nothing else changes.
    pub fn set_height(&mut self, height: u32)
        ensures
            final(self)@ == (MonitorView { height: height, ..old(self)@ }),
    {
        self.height = height;
    }
}

/// Two descriptors are equal when they name the same output.
impl PartialEq for Monitor {
    fn eq(&self, other: &Monitor) -> (r: bool) {
        self.id == other.id
    }
}

impl vstd::std_specs::cmp::PartialEqSpecImpl for Monitor {
    open spec fn obeys_eq_spec() -> bool {
        true
    }

    open spec fn eq_spec(&self, other: &Monitor) -> bool {
        self@.id == other@.id
    }
}

impl Eq for Monitor {

}

/// A capture of an output that is not rotated, with no options, has the size
/// of the grabbed frame: where the platform grabs the monitor at its logical
/// size, the picture has the monitor's width and height.
pub proof fn lemma_unrotated_capture_size(m: MonitorView, s: Seq<RawOutput>, i: int, frame: Frame)
    requires
        first_live(s, m.id, i),
        nearest_rotation(s[i].rotation_degrees as int) == Rotation::Deg0,
        frame.width == m.width,
        frame.height == m.height,
    ensures
        captured(m.id, s, frame, None) is Ok ==> captured(m.id, s, frame, None)->Ok_0.width
            == m.width && captured(m.id, s, frame, None)->Ok_0.height == m.height,
{
    lemma_first_live_unique(s, m.id, i);
}

/// A capture of an output turned a quarter turn comes out with the width and
/// height of the grabbed frame swapped.
pub proof fn lemma_quarter_turn_capture_size(id: u32, s: Seq<RawOutput>, i: int, frame: Frame)
    requires
        first_live(s, id, i),
        nearest_rotation(s[i].rotation_degrees as int).spec_is_quarter_turn(),
    ensures
        captured(id, s, frame, None) is Ok ==> captured(id, s, frame, None)->Ok_0.width
            == frame.height && captured(id, s, frame, None)->Ok_0.height == frame.width,
{
    lemma_first_live_unique(s, id, i);
}

/// Two captures of one monitor, while the reported outputs stay the same and
/// the grabbed frames have the same size, give pictures of the same size,
/// whatever their pixels.
pub proof fn lemma_repeated_capture_size(
    id: u32,
    s: Seq<RawOutput>,
    f1: Frame,
    f2: Frame,
    options: Option<DisplayOptions>,
)
    requires
        f1.width == f2.width,
        f1.height == f2.height,
        captured(id, s, f1, options) is Ok,
        captured(id, s, f2, options) is Ok,
    ensures
        captured(id, s, f1, options)->Ok_0.width == captured(id, s, f2, options)->Ok_0.width,
        captured(id, s, f1, options)->Ok_0.height == captured(id, s, f2, options)->Ok_0.height,
{
}

} // verus!
