//! The values that travel between the scanner, the gateway and the backend.
use vstd::prelude::*;

verus! {

/// Most tags that a scanner remembers, and so that one report carries.
pub const MAX_SEEN: usize = 32;

/// Longest tag name, in UTF-8 bytes.
pub const TAG_NAME_MAX_LEN: usize = 64;

/// A name fits in a tag record: at most `TAG_NAME_MAX_LEN` bytes of UTF-8.
pub open spec fn fits_tag_name(name: Seq<char>) -> bool {
    vstd::utf8::encode_utf8(name).len() <= TAG_NAME_MAX_LEN
}

/// One tag in a report: its advertised name, how many seconds ago it was
/// last heard, and the signal strength it was heard with.
pub struct DetectedTag {
    pub id: String,
    pub age: u16,
    pub rssi: i8,
}

impl View for DetectedTag {
    type V = (Seq<char>, u16, i8);

    open spec fn view(&self) -> (Seq<char>, u16, i8) {
        (self.id@, self.age, self.rssi)
    }
}

impl DetectedTag {
    /// A copy of this record.
    pub fn duplicate(&self) -> (r: DetectedTag)
        ensures
            r@ == self@,
    {
        DetectedTag { id: self.id.clone(), age: self.age, rssi: self.rssi }
    }
}

/// The records of a list of tags, in order.
pub open spec fn tags_view(tags: Seq<DetectedTag>) -> Seq<(Seq<char>, u16, i8)> {
    Seq::new(tags.len(), |i: int| tags[i]@)
}

/// A list of tag records fits a report: at most `MAX_SEEN` tags, each name
/// at most `TAG_NAME_MAX_LEN` bytes.
pub open spec fn tags_ok(tags: Seq<(Seq<char>, u16, i8)>) -> bool {
    tags.len() <= MAX_SEEN && forall|i: int| 0 <= i < tags.len() ==> fits_tag_name((#[trigger] tags[i]).0)
}

/// The report a scanner sends over the serial link.
pub struct TagsSeen {
    pub tags: Vec<DetectedTag>,
}

impl View for TagsSeen {
    type V = Seq<(Seq<char>, u16, i8)>;

    open spec fn view(&self) -> Seq<(Seq<char>, u16, i8)> {
        tags_view(self.tags@)
    }
}

/// A copy of a list of tag records.
pub fn copy_tags(tags: &Vec<DetectedTag>) -> (r: Vec<DetectedTag>)
    ensures
        tags_view(r@) == tags_view(tags@),
{
    let mut r: Vec<DetectedTag> = Vec::new();
    let mut i: usize = 0;
    while i < tags.len()
        invariant
            i <= tags.len(),
            r@.len() == i,
            forall|j: int| 0 <= j < i ==> (#[trigger] r@[j])@ == tags@[j]@,
        decreases tags.len() - i,
    {
        r.push(tags[i].duplicate());
        i += 1;
    }
    assert(tags_view(r@) =~= tags_view(tags@));
    r
}

impl TagsSeen {
    /// The report fits the wire form: at most `MAX_SEEN` tags with short enough names.
    pub open spec fn wf(&self) -> bool {
        tags_ok(self@)
    }

    /// A report without any tag.
    pub fn empty() -> (r: TagsSeen)
        ensures
            r@ == Seq::<(Seq<char>, u16, i8)>::empty(),
    {
        let r = TagsSeen { tags: Vec::new() };
        assert(r@ =~= Seq::<(Seq<char>, u16, i8)>::empty());
        r
    }

    /// A copy of this report.
    pub fn duplicate(&self) -> (r: TagsSeen)
        ensures
            r@ == self@,
    {
        TagsSeen { tags: copy_tags(&self.tags) }
    }
}

/// A GNSS channel reading: the integer sample and its decimal scaling, the
/// reading standing for `value * 10^scaling`.
#[derive(Clone, Copy)]
pub struct Reading {
    pub value: i32,
    pub scaling: i8,
}

/// A complete position fix, as read from the GNSS receiver.
#[derive(Clone, Copy)]
pub struct LocationFix {
    pub latitude: Reading,
    pub longitude: Reading,
    pub altitude: Reading,
    pub time_of_fix: u64,
}

/// What a gateway update holds.
pub struct UpdateView {
    pub gateway_id: Seq<char>,
    pub timestamp: u64,
    pub detected_tags: Seq<(Seq<char>, u16, i8)>,
    pub battery_level: Option<u8>,
    pub location: Option<LocationFix>,
}

/// An update fits the wire form: its tags fit a report and its gateway id
/// is at most `TAG_NAME_MAX_LEN` bytes.
pub open spec fn update_ok(u: UpdateView) -> bool {
    tags_ok(u.detected_tags) && fits_tag_name(u.gateway_id)
}

/// The status update a gateway publishes to the backend.
pub struct GatewayUpdate {
    pub gateway_id: String,
    pub timestamp: u64,
    pub detected_tags: Vec<DetectedTag>,
    pub battery_level: Option<u8>,
    pub location: Option<LocationFix>,
}

impl View for GatewayUpdate {
    type V = UpdateView;

    open spec fn view(&self) -> UpdateView {
        UpdateView {
            gateway_id: self.gateway_id@,
            timestamp: self.timestamp,
            detected_tags: tags_view(self.detected_tags@),
            battery_level: self.battery_level,
            location: self.location,
        }
    }
}

impl GatewayUpdate {
    /// The update fits the wire form.
    pub open spec fn wf(&self) -> bool {
        update_ok(self@)
    }

    /// A copy of this update.
    pub fn duplicate(&self) -> (r: GatewayUpdate)
        ensures
            r@ == self@,
    {
        GatewayUpdate {
            gateway_id: self.gateway_id.clone(),
            timestamp: self.timestamp,
            detected_tags: copy_tags(&self.detected_tags),
            battery_level: self.battery_level,
            location: self.location,
        }
    }
}

} // verus!
