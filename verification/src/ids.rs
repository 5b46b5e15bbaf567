//! Typed entity ids and their deterministic issuer.

use vstd::prelude::*;

verus! {

/// Id of a rover entity: a newtype around a raw `u32`.
///
/// Cheap to copy, totally ordered, and a distinct type so rover ids never
/// mix with other id spaces.
#[derive(Debug, Clone, Copy, PartialEq, Eq, Structural, PartialOrd, Ord, Hash)]
pub struct RoverId(u32);

impl View for RoverId {
    type V = u32;

    /// The raw numeric value.
    closed spec fn view(&self) -> u32 {
        self.0
    }
}

impl RoverId {
    /// The id with this raw value.
    pub closed spec fn of_raw(raw: u32) -> RoverId {
        RoverId(raw)
    }

    /// The id built from a raw value carries that value, and every id is
    /// the one built from its own raw value.
    pub broadcast proof fn lemma_of_raw(raw: u32)
        ensures
            (#[trigger] RoverId::of_raw(raw))@ == raw,
    {
    }

    /// Wrap a raw id (snapshot decoding, tests).
    pub fn from_raw(raw: u32) -> (id: Self)
        ensures
            id@ == raw,
            id == RoverId::of_raw(raw),
    {
        RoverId(raw)
    }

    /// Raw numeric value of the id.
    pub fn raw(self) -> (raw: u32)
        ensures
            raw == self@,
    {
        self.0
    }

    /// Human-readable form of the id, `rover#<raw>`.
    pub fn label(self) -> (text: String)
        ensures
            text@ == seq!['r', 'o', 'v', 'e', 'r', '#'] + crate::text::decimal(self@ as nat),
    {
        let mut text = String::from_str("rover#");
        proof {
            reveal_strlit("rover#");
        }
        let digits = crate::text::u64_to_decimal(self.raw() as u64);
        text.append(digits.as_str());
        text
    }

    /// Two ids are equal exactly when their raw values are.
    pub proof fn lemma_view_injective(a: RoverId, b: RoverId)
        ensures
            a@ == b@ <==> a == b,
    {
    }
}

/// Sequential id counter for one world.
///
/// Ids are handed out strictly in ascending order and never reused: two
/// worlds that perform the same spawn sequence get identical ids, whatever
/// their seed. The first issued id is `1`; `0` is never issued.
#[derive(Debug, Clone, Copy, PartialEq, Eq, Structural)]
pub struct IdIssuer {
    next: u32,
}

impl Default for IdIssuer {
    /// Same as `new`.
    fn default() -> (h: Self)
        ensures
            h.watermark() == 1,
    {
        IdIssuer::new()
    }
}

impl IdIssuer {
    /// The id the next call of [`IdIssuer::issue`] hands out.
    pub closed spec fn watermark(self) -> u32 {
        self.next
    }

    /// Issuer whose first issued id is `1`.
    pub fn new() -> (issuer: Self)
        ensures
            issuer.watermark() == 1,
    {
        IdIssuer { next: 1 }
    }

    /// Issuer that continues from a stored watermark (snapshot restore).
    pub fn resume(next: u32) -> (issuer: Self)
        ensures
            issuer.watermark() == next,
    {
        IdIssuer { next }
    }

    /// The watermark: the raw id the next issued id will carry.
    pub fn next_raw(&self) -> (next: u32)
        ensures
            next == self.watermark(),
    {
        self.next
    }

    /// Issue the next id: the current watermark, which then moves up by one.
    ///
    /// The `u32` id space must not be exhausted (issuing past it is a
    /// caller error).
    pub fn issue(&mut self) -> (id: RoverId)
        requires
            old(self).watermark() < u32::MAX,
        ensures
            id@ == old(self).watermark(),
            final(self).watermark() == old(self).watermark() + 1,
    {
        let id = RoverId(self.next);
        self.next = self.next + 1;
        id
    }
}

} // verus!
