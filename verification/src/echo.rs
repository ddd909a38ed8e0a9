use vstd::prelude::*;

use crate::text::{owned, push_dec};

verus! {

/// The sum of the big-endian 16-bit words of `d`; an odd last byte counts
/// as the high byte of a word.
pub open spec fn word_sum(d: Seq<u8>) -> nat
    decreases d.len(),
{
    if d.len() >= 2 {
        (d[0] as nat) * 256 + (d[1] as nat) + word_sum(d.skip(2))
    } else if d.len() == 1 {
        (d[0] as nat) * 256
    } else {
        0
    }
}

/// Each word is at most 65535, and `d` has at most `(len + 1) / 2` words:
/// so data of up to 131070 bytes (an echo payload of up to 131062) keeps the
/// sum within 32 bits.
pub proof fn lemma_word_sum_bound(d: Seq<u8>)
    ensures
        word_sum(d) <= 65535 * ((d.len() + 1) / 2),
        d.len() <= 131070 ==> word_sum(d) <= u32::MAX,
    decreases d.len(),
{
    if d.len() >= 2 {
        lemma_word_sum_bound(d.skip(2));
    }
    assert(d.len() <= 131070 ==> 65535 * ((d.len() + 1) / 2) <= u32::MAX) by (nonlinear_arith);
}

/// Adds the carries above 16 bits back in until none are left.
pub open spec fn fold_carries(s: nat) -> nat
    decreases s,
{
    if s < 65536 {
        s
    } else {
        fold_carries(s % 65536 + s / 65536)
    }
}

/// The Internet checksum (RFC 1071) of `d`: the ones' complement of the
/// ones' complement sum of its words.
pub open spec fn checksum_of(d: Seq<u8>) -> u16 {
    (65535 - fold_carries(word_sum(d))) as u16
}

proof fn lemma_word_sum_take(d: Seq<u8>, i: int)
    requires
        0 <= i,
        i % 2 == 0,
        i + 2 <= d.len(),
    ensures
        word_sum(d) == word_sum(d.take(i)) + (d[i] as nat) * 256 + (d[i + 1] as nat) + word_sum(d.skip(i + 2)),
        word_sum(d.take(i + 2)) == word_sum(d.take(i)) + (d[i] as nat) * 256 + (d[i + 1] as nat),
    decreases i,
{
    if i == 0 {
        assert(d.take(0) =~= Seq::<u8>::empty());
        assert(d.take(2).skip(2) =~= Seq::<u8>::empty());
    } else {
        lemma_word_sum_take(d.skip(2), i - 2);
        assert(d.skip(2).take(i - 2) =~= d.take(i).skip(2));
        assert(d.skip(2).skip(i) =~= d.skip(i + 2));
        assert(d.skip(2).take(i) =~= d.take(i + 2).skip(2));
    }
}

/// The checksum of `data`. The sum of its words must fit in 32 bits, as it
/// does in the 32-bit accumulator.
pub fn inet_checksum(data: &[u8]) -> (r: u16)
    requires
        word_sum(data@) <= u32::MAX,
    ensures
        r == checksum_of(data@),
{
    let mut sum: u32 = 0;
    let mut i: usize = 0;
    let n = data.len();
    assert(data@.take(0) =~= Seq::<u8>::empty());
    while i + 1 < n
        invariant
            n == data@.len(),
            i <= n,
            i % 2 == 0,
            sum == word_sum(data@.take(i as int)),
            word_sum(data@) <= u32::MAX,
        decreases n - i,
    {
        proof {
            lemma_word_sum_take(data@, i as int);
            lemma_word_sum_take(data@.take(i + 2), i as int);
            assert(data@.take(i + 2).take(i as int) =~= data@.take(i as int));
        }
        sum = sum + (data[i] as u32) * 256 + (data[i + 1] as u32);
        i = i + 2;
    }
    proof {
        if i < n {
            assert(i + 1 == n);
            lemma_word_sum_rest(data@, i as int);
        } else {
            assert(data@.take(i as int) =~= data@);
        }
    }
    if i < n {
        sum = sum + (data[i] as u32) * 256;
    }
    while sum >= 65536
        invariant
            fold_carries(sum as nat) == fold_carries(word_sum(data@)),
        decreases sum,
    {
        sum = (sum % 65536) + (sum / 65536);
    }
    (65535 - sum) as u16
}

proof fn lemma_word_sum_rest(d: Seq<u8>, i: int)
    requires
        0 <= i,
        i % 2 == 0,
        i + 1 == d.len(),
    ensures
        word_sum(d) == word_sum(d.take(i)) + (d[i] as nat) * 256,
    decreases i,
{
    if i == 0 {
        assert(d.take(0) =~= Seq::<u8>::empty());
    } else {
        lemma_word_sum_rest(d.skip(2), i - 2);
        assert(d.skip(2).take(i - 2) =~= d.take(i).skip(2));
    }
}

/// An echo request (type 8, code 0, identifier 0) with sequence number
/// `seq` and the checksum of the whole packet in place.
pub open spec fn echo_packet(seq: u16, payload: Seq<u8>) -> Seq<u8> {
    let blank = seq![8u8, 0, 0, 0, 0, 0, (seq / 256) as u8, (seq % 256) as u8] + payload;
    let ck = checksum_of(blank);
    seq![8u8, 0, (ck / 256) as u8, (ck % 256) as u8, 0, 0, (seq / 256) as u8, (seq % 256) as u8] + payload
}

/// Builds an echo request; the sum of the words of the packet must fit in
/// 32 bits.
pub fn build_echo_request(seq: u16, payload: &[u8]) -> (r: Vec<u8>)
    requires
        word_sum(seq![8u8, 0, 0, 0, 0, 0, (seq / 256) as u8, (seq % 256) as u8] + payload@) <= u32::MAX,
    ensures
        r@ == echo_packet(seq, payload@),
{
    let mut pkt: Vec<u8> = vec![8u8, 0, 0, 0, 0, 0, (seq / 256) as u8, (seq % 256) as u8];
    let ghost head = pkt@;
    let mut i: usize = 0;
    while i < payload.len()
        invariant
            i <= payload@.len(),
            pkt@ == head + payload@.take(i as int),
        decreases payload.len() - i,
    {
        pkt.push(payload[i]);
        i = i + 1;
        assert(pkt@ =~= head + payload@.take(i as int));
    }
    assert(payload@.take(i as int) =~= payload@);
    let ck = inet_checksum(pkt.as_slice());
    pkt.set(2, (ck / 256) as u8);
    pkt.set(3, (ck % 256) as u8);
    assert(pkt@ =~= echo_packet(seq, payload@));
    pkt
}

/// Checks the reply that a ping socket received: it must hold a whole ICMP
/// header and be an echo reply (type 0).
pub fn check_echo_reply(data: &[u8]) -> (r: Result<(), String>)
    ensures
        data@.len() < 8 ==> (r matches Err(e) && e@ == "ICMP response too short"@),
        data@.len() >= 8 && data@[0] != 0 ==> (r matches Err(e) && e@ == "unexpected ICMP type "@ + crate::text::dec(data@[0] as nat)),
        data@.len() >= 8 && data@[0] == 0 ==> r is Ok,
{
    if data.len() < 8 {
        return Err(owned("ICMP response too short"));
    }
    if data[0] != 0 {
        let mut e = owned("unexpected ICMP type ");
        push_dec(&mut e, data[0] as u64);
        return Err(e);
    }
    Ok(())
}

/// What a received packet says of probe `seq`: `Some(true)` for our echo
/// reply (the destination answered), `Some(false)` for a time-exceeded
/// message quoting our probe (a router on the way, seen only on a raw
/// socket, whose packets start with a 20-byte IP header), `None` for
/// anything else.
pub open spec fn reply_kind(data: Seq<u8>, is_raw: bool, seq: u16) -> Option<bool> {
    if is_raw && data.len() < 28 {
        None
    } else if !is_raw && data.len() < 8 {
        None
    } else {
        let msg = if is_raw {
            data.skip(20)
        } else {
            data
        };
        if msg[0] == 0 {
            if crate::dns::be16(msg, 6) == seq {
                Some(true)
            } else {
                None
            }
        } else if msg[0] == 11 && is_raw {
            if msg.len() < 36 {
                None
            } else if crate::dns::be16(msg, 34) == seq {
                Some(false)
            } else {
                None
            }
        } else {
            None
        }
    }
}

/// Classifies a packet received while waiting for probe `seq`.
pub fn classify_reply(data: &[u8], is_raw: bool, seq: u16) -> (r: Option<bool>)
    ensures
        r == reply_kind(data@, is_raw, seq),
{
    let n = data.len();
    if is_raw && n < 28 {
        return None;
    }
    if !is_raw && n < 8 {
        return None;
    }
    let start: usize = if is_raw { 20 } else { 0 };
    let msg = crate::text::slice_range(data, start, n);
    assert(msg@ == if is_raw { data@.skip(20) } else { data@ });
    if msg[0] == 0 {
        let got = (msg[6] as u16) * 256 + (msg[7] as u16);
        if got == seq {
            Some(true)
        } else {
            None
        }
    } else if msg[0] == 11 && is_raw {
        if msg.len() < 36 {
            return None;
        }
        let got = (msg[34] as u16) * 256 + (msg[35] as u16);
        if got == seq {
            Some(false)
        } else {
            None
        }
    } else {
        None
    }
}

/// Whether the probe returned on a socket's error queue is probe `seq`:
/// it must hold a whole ICMP header whose sequence number is `seq`.
pub fn queued_probe_matches(payload: &[u8], seq: u16) -> (r: bool)
    ensures
        r == (payload@.len() >= 8 && crate::dns::be16(payload@, 6) == seq),
{
    if payload.len() < 8 {
        return false;
    }
    (payload[6] as u16) * 256 + (payload[7] as u16) == seq
}

proof fn lemma_fold_carries(x: nat)
    ensures
        fold_carries(x) <= 65535,
        fold_carries(x) % 65535 == x % 65535,
        x > 0 ==> fold_carries(x) > 0,
    decreases x,
{
    if x >= 65536 {
        let q = x / 65536;
        let r = x % 65536;
        let y = r + q;
        assert(x == 65536 * q + r);
        assert(q >= 1);
        assert(y < x) by (nonlinear_arith)
            requires
                x == 65536 * q + r,
                q >= 1,
                0 <= r < 65536,
                y == r + q,
        ;
        assert(x % 65535 == y % 65535) by (nonlinear_arith)
            requires
                x == 65536 * q + r,
                y == r + q,
                q >= 0,
                r >= 0,
        {
            assert(x == 65535 * q + y);
            vstd::arithmetic::div_mod::lemma_mod_multiples_vanish(q as int, y as int, 65535);
        }
        lemma_fold_carries(y);
    }
}

/// A built echo request carries a valid checksum: summing the whole packet,
/// checksum field included, and complementing gives zero, which is how a
/// receiver checks it.
pub proof fn law_echo_checksum_verifies(seq: u16, payload: Seq<u8>)
    ensures
        checksum_of(echo_packet(seq, payload)) == 0,
{
    let blank = seq![8u8, 0, 0, 0, 0, 0, (seq / 256) as u8, (seq % 256) as u8] + payload;
    let ck = checksum_of(blank);
    let pkt = echo_packet(seq, payload);
    let s = word_sum(blank);
    lemma_fold_carries(s);
    let f = fold_carries(s);
    assert(ck == 65535 - f);
    assert(blank.skip(2).skip(2) =~= blank.skip(4));
    assert(pkt.skip(2).skip(2) =~= pkt.skip(4));
    assert(pkt.skip(4) =~= blank.skip(4));
    assert(blank.skip(2)[0] == 0 && blank.skip(2)[1] == 0);
    assert(pkt.skip(2)[0] == (ck / 256) as u8 && pkt.skip(2)[1] == (ck % 256) as u8);
    assert(blank[0] == 8 && blank[1] == 0 && blank.len() >= 8);
    assert(word_sum(blank) == 2048 + word_sum(blank.skip(2)));
    assert(word_sum(blank.skip(2)) == word_sum(blank.skip(2).skip(2)));
    assert(word_sum(blank) == 2048 + word_sum(blank.skip(4)));
    assert(((ck / 256) as u8) as nat * 256 + ((ck % 256) as u8) as nat == ck);
    assert(pkt[0] == 8 && pkt[1] == 0 && pkt.len() >= 8);
    assert(word_sum(pkt) == 2048 + word_sum(pkt.skip(2)));
    assert(word_sum(pkt.skip(2)) == ck + word_sum(pkt.skip(2).skip(2)));
    assert(word_sum(pkt) == 2048 + ck + word_sum(pkt.skip(4)));
    let s2 = word_sum(pkt);
    assert(s2 == s + ck);
    lemma_fold_carries(s2);
    assert(s2 > 0);
    assert(s2 % 65535 == 0) by (nonlinear_arith)
        requires
            s2 == s + 65535 - f,
            f % 65535 == s % 65535,
            f <= 65535,
    {
        vstd::arithmetic::div_mod::lemma_mod_sub_multiples_vanish((s2 - 65535) as int, 65535);
    }
    assert(fold_carries(s2) == 65535);
}

} // verus!
