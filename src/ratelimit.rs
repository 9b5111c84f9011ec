use vstd::prelude::*;

verus! {

/// A rate-limit quota as plain values: one cell replenishes every
/// `period_nanos`, up to `burst` cells at once.
#[derive(Debug, Clone, Copy, PartialEq, Eq, Structural)]
pub struct QuotaParts {
    pub period_nanos: u128,
    pub burst: u32,
}

/// The quota `q` widened `factor` times: cells come `factor` times as often
/// and the burst is `factor` times as large. `None` when the period would
/// round down to nothing.
pub open spec fn scaled_spec(q: QuotaParts, factor: u32) -> Option<QuotaParts> {
    if q.period_nanos as int / factor as int == 0 {
        None
    } else {
        Some(
            QuotaParts {
                period_nanos: (q.period_nanos as int / factor as int) as u128,
                burst: (q.burst * factor) as u32,
            },
        )
    }
}

/// Scales a quota for a limiter shared by a whole network prefix.
pub fn scale_quota(q: QuotaParts, factor: u32) -> (r: Option<QuotaParts>)
    requires
        factor > 0,
        q.burst * factor <= u32::MAX,
    ensures
        r == scaled_spec(q, factor),
{
    let period = q.period_nanos / (factor as u128);
    if period == 0 {
        None
    } else {
        Some(QuotaParts { period_nanos: period, burst: q.burst * factor })
    }
}

/// The keys an IPv6 client is limited under: its /64 network (as a full
/// address with the host half zeroed), and its /56 and /48 prefixes.
#[derive(Debug, Clone, PartialEq, Eq)]
pub struct Ipv6Keys {
    pub net64: Vec<u8>,
    pub net56: Vec<u8>,
    pub net48: Vec<u8>,
}

/// The limiter keys of the IPv6 address with these 16 octets.
pub fn ipv6_keys(octets: &[u8]) -> (r: Ipv6Keys)
    requires
        octets@.len() == 16,
    ensures
        r.net64@ == octets@.take(8) + Seq::new(8, |i: int| 0u8),
        r.net56@ == octets@.take(7),
        r.net48@ == octets@.take(6),
{
    let mut net64: Vec<u8> = Vec::new();
    let mut net56: Vec<u8> = Vec::new();
    let mut net48: Vec<u8> = Vec::new();
    let mut i: usize = 0;
    while i < 16
        invariant
            octets@.len() == 16,
            i <= 16,
            net64@ == (if i <= 8 {
                octets@.take(i as int)
            } else {
                octets@.take(8) + Seq::new((i - 8) as nat, |k: int| 0u8)
            }),
            net56@ == octets@.take(if i <= 7 { i as int } else { 7 }),
            net48@ == octets@.take(if i <= 6 { i as int } else { 6 }),
        decreases 16 - i,
    {
        if i < 8 {
            net64.push(octets[i]);
        } else {
            net64.push(0u8);
        }
        if i < 7 {
            net56.push(octets[i]);
        }
        if i < 6 {
            net48.push(octets[i]);
        }
        i += 1;
        proof {
            if i <= 8 {
                assert(net64@ =~= octets@.take(i as int));
            } else {
                assert(net64@ =~= octets@.take(8) + Seq::new((i - 8) as nat, |k: int| 0u8));
            }
            if i <= 7 {
                assert(net56@ =~= octets@.take(i as int));
            }
            if i <= 6 {
                assert(net48@ =~= octets@.take(i as int));
            }
        }
    }
    Ipv6Keys { net64, net56, net48 }
}

} // verus!
