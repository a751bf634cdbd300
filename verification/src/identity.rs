//! Monitor identities: reading one out of a connector's identity block, the
//! order among identities, and the canonical sorted form of a list of them.

use vstd::prelude::*;
use vstd::relations::{sorted_by, total_ordering};
use vstd::seq_lib::{lemma_sorted_unique, to_multiset_build, to_multiset_insert};
use crate::config::Monitor;

verus! {

/// What `edid::parse` reads from the head of an identity block: the three
/// manufacturer letters, the product code and the serial number; `None` where
/// the block does not parse.
pub uninterp spec fn edid_header(data: Seq<u8>) -> Option<(char, char, char, u16, u32)>;

/// Calls `edid::parse` on the bytes of an identity block and hands out the
/// manufacturer letters, product code and serial number of the parsed header.
/// The parser is a function of the bytes alone; an error or an incomplete
/// block gives `None`.
#[verifier::external_body]
fn parse_header(data: &[u8]) -> (r: Option<(char, char, char, u16, u32)>)
    ensures
        r == edid_header(data@),
{
    match edid::parse(data) {
        nom::IResult::Done(_, e) => Some(
            (e.header.vendor[0], e.header.vendor[1], e.header.vendor[2], e.header.product, e.header.serial),
        ),
        nom::IResult::Error(_) => None,
        nom::IResult::Incomplete(_) => None,
    }
}

/// The identity that a parsed header stands for.
pub open spec fn monitor_of(header: (char, char, char, u16, u32)) -> Monitor {
    Monitor {
        vendor0: header.0,
        vendor1: header.1,
        vendor2: header.2,
        product: header.3,
        serial: header.4,
    }
}

/// The identity of the monitor whose identity block is `data`, if it has one.
pub open spec fn identity_of(data: Seq<u8>) -> Option<Monitor> {
    match edid_header(data) {
        Some(h) => Some(monitor_of(h)),
        None => None,
    }
}

impl Monitor {
    /// Builds the identity from the fields of a parsed header.
    pub fn from_header(header: (char, char, char, u16, u32)) -> (r: Monitor)
        ensures
            r == monitor_of(header),
    {
        Monitor {
            vendor0: header.0,
            vendor1: header.1,
            vendor2: header.2,
            product: header.3,
            serial: header.4,
        }
    }

    /// The order among identities: by manufacturer letters, then product
    /// code, then serial number.
    pub open spec fn le_spec(self, other: Monitor) -> bool {
        let a = self;
        let b = other;
        if a.vendor0 != b.vendor0 {
            (a.vendor0 as u32) < (b.vendor0 as u32)
        } else if a.vendor1 != b.vendor1 {
            (a.vendor1 as u32) < (b.vendor1 as u32)
        } else if a.vendor2 != b.vendor2 {
            (a.vendor2 as u32) < (b.vendor2 as u32)
        } else if a.product != b.product {
            a.product < b.product
        } else {
            a.serial <= b.serial
        }
    }

    pub fn le(&self, other: &Monitor) -> (r: bool)
        ensures
            r == self.le_spec(*other),
    {
        if self.vendor0 != other.vendor0 {
            (self.vendor0 as u32) < (other.vendor0 as u32)
        } else if self.vendor1 != other.vendor1 {
            (self.vendor1 as u32) < (other.vendor1 as u32)
        } else if self.vendor2 != other.vendor2 {
            (self.vendor2 as u32) < (other.vendor2 as u32)
        } else if self.product != other.product {
            self.product < other.product
        } else {
            self.serial <= other.serial
        }
    }
}

/// Reads the identity out of a connector's identity block. A block that
/// does not parse identifies no monitor.
pub fn get_edid(data: &[u8]) -> (r: Option<Monitor>)
    ensures
        r == identity_of(data@),
{
    match parse_header(data) {
        Some(h) => Some(Monitor::from_header(h)),
        None => None,
    }
}

/// The outputs whose identity block identifies a monitor, each with that
/// monitor, in the order of the blocks.
pub open spec fn identified(blocks: Seq<(u32, Vec<u8>)>) -> Seq<(u32, Monitor)>
    decreases blocks.len(),
{
    if blocks.len() == 0 {
        Seq::empty()
    } else {
        let head = identified(blocks.drop_last());
        match identity_of(blocks.last().1@) {
            Some(m) => head.push((blocks.last().0, m)),
            None => head,
        }
    }
}

/// Identifies the monitor on each output from the identity block that was
/// read there. Outputs whose block identifies none are left out.
pub fn get_monitors(blocks: &Vec<(u32, Vec<u8>)>) -> (r: Vec<(u32, Monitor)>)
    ensures
        r@ == identified(blocks@),
{
    let mut out: Vec<(u32, Monitor)> = Vec::new();
    let mut i: usize = 0;
    while i < blocks.len()
        invariant
            0 <= i <= blocks@.len(),
            out@ == identified(blocks@.take(i as int)),
        decreases blocks@.len() - i,
    {
        assert(blocks@.take(i + 1).drop_last() == blocks@.take(i as int));
        match get_edid(blocks[i].1.as_slice()) {
            Some(m) => {
                out.push((blocks[i].0, m));
            },
            None => {},
        }
        i += 1;
    }
    assert(blocks@.take(blocks@.len() as int) == blocks@);
    out
}

/// The order among identities as a relation.
pub open spec fn monitor_order() -> spec_fn(Monitor, Monitor) -> bool {
    |a: Monitor, b: Monitor| a.le_spec(b)
}

/// The order among identities is total: any two are comparable, and two that
/// are each below the other are the same identity.
pub proof fn lemma_monitor_order_total()
    ensures
        total_ordering(monitor_order()),
{
    let r = monitor_order();
    assert forall|a: Monitor, b: Monitor| #[trigger] r(a, b) && r(b, a) implies a == b by {
        assert(a.vendor0 as u32 == b.vendor0 as u32 ==> a.vendor0 == b.vendor0);
        assert(a.vendor1 as u32 == b.vendor1 as u32 ==> a.vendor1 == b.vendor1);
        assert(a.vendor2 as u32 == b.vendor2 as u32 ==> a.vendor2 == b.vendor2);
    }
    assert forall|a: Monitor, b: Monitor| #[trigger] r(a, b) || #[trigger] r(b, a) by {
        assert(a.vendor0 as u32 == b.vendor0 as u32 ==> a.vendor0 == b.vendor0);
        assert(a.vendor1 as u32 == b.vendor1 as u32 ==> a.vendor1 == b.vendor1);
        assert(a.vendor2 as u32 == b.vendor2 as u32 ==> a.vendor2 == b.vendor2);
    }
}

/// The canonical form of a list of identities: the same identities, each as
/// often as in the list, in ascending order.
pub open spec fn canonical(monitors: Seq<Monitor>) -> Seq<Monitor> {
    monitors.sort_by(monitor_order())
}

/// A sorted list that holds the same identities as `monitors`, each as often,
/// is its canonical form.
pub proof fn lemma_canonical_unique(monitors: Seq<Monitor>, sorted: Seq<Monitor>)
    requires
        sorted_by(sorted, monitor_order()),
        sorted.to_multiset() == monitors.to_multiset(),
    ensures
        sorted == canonical(monitors),
{
    lemma_monitor_order_total();
    monitors.lemma_sort_by_ensures(monitor_order());
    lemma_sorted_unique(sorted, canonical(monitors), monitor_order());
}

/// Sorts a list of identities into its canonical form.
pub fn canonical_key(monitors: &Vec<Monitor>) -> (r: Vec<Monitor>)
    ensures
        r@ == canonical(monitors@),
        sorted_by(r@, monitor_order()),
        r@.to_multiset() == monitors@.to_multiset(),
{
    let mut out: Vec<Monitor> = Vec::new();
    let mut i: usize = 0;
    assert(out@ =~= monitors@.take(0));
    while i < monitors.len()
        invariant
            0 <= i <= monitors@.len(),
            sorted_by(out@, monitor_order()),
            out@.to_multiset() == monitors@.take(i as int).to_multiset(),
            out@.len() == i,
        decreases monitors@.len() - i,
    {
        let m = monitors[i];
        let mut pos: usize = 0;
        while pos < out.len() && out[pos].le(&m)
            invariant
                0 <= pos <= out@.len(),
                forall|k: int| 0 <= k < pos ==> (#[trigger] out@[k]).le_spec(m),
            decreases out@.len() - pos,
        {
            pos += 1;
        }
        proof {
            lemma_monitor_order_total();
            let before = out@;
            let after = before.insert(pos as int, m);
            to_multiset_insert(before, pos as int, m);
            assert(monitors@.take(i + 1) == monitors@.take(i as int).push(m));
            to_multiset_build(monitors@.take(i as int), m);
            let r = monitor_order();
            assert forall|a: int, b: int| 0 <= a < b < after.len() implies #[trigger] r(
                after[a],
                after[b],
            ) by {
                if b == pos {
                    assert(before[a].le_spec(m));
                } else if a == pos {
                    assert(r(before[pos as int], before[b - 1]) || pos == b - 1);
                    assert(!before[pos as int].le_spec(m));
                    assert(r(m, before[pos as int]) || r(before[pos as int], m));
                    assert(r(m, before[pos as int]) && r(before[pos as int], before[b - 1]) ==> r(
                        m,
                        before[b - 1],
                    ));
                } else {
                    let a0 = if a < pos { a } else { a - 1 };
                    let b0 = if b < pos { b } else { b - 1 };
                    assert(r(before[a0], before[b0]));
                }
            }
        }
        out.insert(pos, m);
        i += 1;
    }
    proof {
        assert(monitors@.take(monitors@.len() as int) == monitors@);
        lemma_canonical_unique(monitors@, out@);
    }
    out
}

} // verus!
