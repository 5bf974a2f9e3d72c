//! The block-structured scan format: blank-line separated blocks, one per
//! network name, each listing one or more access points (BSSID, Signal,
//! Channel); a block keeps its strongest access point.
use vstd::prelude::*;
use crate::model::{AvailableWifi, NetworkRecord, records_view, strings_view};
use crate::text::{
    chars_of, equals_str, is_word, join_words, lemma_words_of_join, lines, split_lines, split_words,
    string_of, words,
};

verus! {

/// One access point of a block: its BSSID, its signal text and its channel.
pub struct Sighting {
    pub mac: Seq<char>,
    pub signal: Seq<char>,
    pub channel: Seq<char>,
}

/// What the lines of a block have said so far.
pub struct BlockState {
    pub ssid: Seq<char>,
    pub security: Seq<char>,
    /// The BSSID of the access point being described.
    pub pending_mac: Seq<char>,
    /// The signal of the access point being described.
    pub pending_signal: Seq<char>,
    /// The access points completed by a `Channel` line, in order.
    pub sightings: Seq<Sighting>,
}

pub open spec fn is_digit(c: char) -> bool {
    '0' <= c && c <= '9'
}

pub open spec fn all_digits(s: Seq<char>) -> bool {
    s.len() > 0 && forall|i: int| 0 <= i < s.len() ==> is_digit(#[trigger] s[i])
}

/// The number that a run of decimal digits writes.
pub open spec fn digits_value(s: Seq<char>) -> int
    decreases s.len(),
{
    if s.len() == 0 {
        0
    } else {
        digits_value(s.drop_last()) * 10 + ((s.last() as u32) - ('0' as u32))
    }
}

pub open spec fn clamp_signal(v: int) -> int {
    if v < -128 {
        -128
    } else if v > 127 {
        127
    } else {
        v
    }
}

/// The value of a signal text: a decimal integer with an optional sign,
/// clamped to `-128..=127`; zero for any other text.
pub open spec fn signal_value(s: Seq<char>) -> int {
    if all_digits(s) {
        clamp_signal(digits_value(s))
    } else if s.len() > 0 && s[0] == '-' && all_digits(s.drop_first()) {
        clamp_signal(-digits_value(s.drop_first()))
    } else if s.len() > 0 && s[0] == '+' && all_digits(s.drop_first()) {
        clamp_signal(digits_value(s.drop_first()))
    } else {
        0
    }
}

/// A signal word without its trailing `%`.
pub open spec fn strip_percent(w: Seq<char>) -> Seq<char> {
    if w.len() > 0 && w.last() == '%' {
        w.drop_last()
    } else {
        w
    }
}

pub open spec fn fresh_block() -> BlockState {
    BlockState {
        ssid: seq![],
        security: seq![],
        pending_mac: seq![],
        pending_signal: seq![],
        sightings: seq![],
    }
}

/// The effect of one non-blank line, given its words. A line is known by its
/// first word; any other first word leaves the block as it is.
pub open spec fn block_step(st: BlockState, ws: Seq<Seq<char>>) -> BlockState {
    if ws.len() == 0 {
        st
    } else if ws[0] == "SSID"@ {
        if ws.len() > 3 {
            BlockState { ssid: ws[3], ..st }
        } else {
            st
        }
    } else if ws[0] == "Authentication"@ {
        if ws.len() > 2 {
            BlockState { security: ws[2], ..st }
        } else {
            st
        }
    } else if ws[0] == "BSSID"@ {
        BlockState { pending_mac: if ws.len() > 3 { ws[3] } else { seq![] }, ..st }
    } else if ws[0] == "Signal"@ {
        BlockState {
            pending_signal: if ws.len() > 2 { strip_percent(ws[2]) } else { "0"@ },
            ..st
        }
    } else if ws[0] == "Channel"@ {
        BlockState {
            sightings: st.sightings.push(
                Sighting {
                    mac: st.pending_mac,
                    signal: st.pending_signal,
                    channel: if ws.len() > 2 { ws[2] } else { seq![] },
                },
            ),
            ..st
        }
    } else {
        st
    }
}

/// The state after the lines of a block.
pub open spec fn block_state(b: Seq<Seq<char>>) -> BlockState
    decreases b.len(),
{
    if b.len() == 0 {
        fresh_block()
    } else {
        block_step(block_state(b.drop_last()), words(b.last()))
    }
}

/// The first access point of greatest signal value.
pub open spec fn strongest(ss: Seq<Sighting>) -> Option<Sighting>
    decreases ss.len(),
{
    if ss.len() == 0 {
        None
    } else {
        match strongest(ss.drop_last()) {
            None => Some(ss.last()),
            Some(b) => if signal_value(ss.last().signal) > signal_value(b.signal) {
                Some(ss.last())
            } else {
                Some(b)
            },
        }
    }
}

/// The record of a block: none unless its strongest access point has a BSSID.
pub open spec fn block_record(b: Seq<Seq<char>>) -> Option<NetworkRecord> {
    state_record(block_state(b))
}

/// The record that a block's state stands for, if any.
pub open spec fn state_record(st: BlockState) -> Option<NetworkRecord> {
    match strongest(st.sightings) {
        Some(s) => if s.mac.len() > 0 {
            Some(
                NetworkRecord {
                    ssid: st.ssid,
                    mac: s.mac,
                    channel: s.channel,
                    signal_level: s.signal,
                    security: st.security,
                    in_use: false,
                },
            )
        } else {
            None
        },
        None => None,
    }
}

/// The lines split into blocks at each empty line; the last block is the
/// one still open.
pub open spec fn blocks(ls: Seq<Seq<char>>) -> Seq<Seq<Seq<char>>>
    decreases ls.len(),
{
    if ls.len() == 0 {
        seq![seq![]]
    } else {
        let bs = blocks(ls.drop_last());
        if ls.last().len() == 0 {
            bs.push(seq![])
        } else {
            bs.update(bs.len() - 1, bs.last().push(ls.last()))
        }
    }
}

/// The records of a sequence of blocks, in order.
pub open spec fn blocks_records(bs: Seq<Seq<Seq<char>>>) -> Seq<NetworkRecord>
    decreases bs.len(),
{
    if bs.len() == 0 {
        seq![]
    } else {
        let r = blocks_records(bs.drop_last());
        match block_record(bs.last()) {
            Some(x) => r.push(x),
            None => r,
        }
    }
}

/// The records of a block-structured scan output.
pub open spec fn netsh_scan(text: Seq<char>) -> Seq<NetworkRecord> {
    blocks_records(blocks(lines(text)))
}

/// The signal value of a text.
pub fn signal_of(s: &Vec<char>) -> (r: i64)
    ensures
        r == signal_value(s@),
{
    let n = s.len();
    let (start, negative) = if n > 0 && s[0] == '-' {
        (1usize, true)
    } else if n > 0 && s[0] == '+' {
        (1usize, false)
    } else {
        (0usize, false)
    };
    if start == n {
        return 0;
    }
    let mut v: i64 = 0;
    let mut j: usize = start;
    while j < n
        invariant
            start <= j <= n,
            start < n,
            n == s@.len(),
            start <= 1,
            start == 1 ==> (s@[0] == '-' || s@[0] == '+'),
            start == 0 ==> !(s@[0] == '-' || s@[0] == '+'),
            negative == (start == 1 && s@[0] == '-'),
            v == if digits_value(s@.subrange(start as int, j as int)) > 1000 { 1000 } else {
                digits_value(s@.subrange(start as int, j as int))
            },
            0 <= v <= 1000,
            forall|m: int| start <= m < j ==> is_digit(#[trigger] s@[m]),
        decreases n - j,
    {
        let c = s[j];
        if !('0' <= c && c <= '9') {
            proof {
                assert(!is_digit(s@[j as int]));
                if start == 1 {
                    assert(s@.drop_first()[j - 1] == s@[j as int]);
                    assert(!all_digits(s@.drop_first()));
                    assert(!is_digit(s@[0]));
                }
                assert(!all_digits(s@));
            }
            return 0;
        }
        let d = ((c as u32) - ('0' as u32)) as i64;
        proof {
            let sub = s@.subrange(start as int, j + 1);
            assert(sub.drop_last() =~= s@.subrange(start as int, j as int));
            assert(sub.last() == c);
            assert(digits_value(s@.subrange(start as int, j as int)) >= 0) by {
                lemma_digits_value_nonneg(s@.subrange(start as int, j as int));
            }
        }
        v = v * 10 + d;
        if v > 1000 {
            v = 1000;
        }
        j += 1;
    }
    proof {
        let body = s@.subrange(start as int, n as int);
        assert(all_digits(body));
        if start == 1 {
            assert(s@.drop_first() =~= body);
            assert(!is_digit(s@[0]));
            assert(!all_digits(s@));
        } else {
            assert(s@ =~= body);
        }
    }
    if negative {
        if v > 128 { -128 } else { -v }
    } else {
        if v > 127 { 127 } else { v }
    }
}

proof fn lemma_digits_value_nonneg(s: Seq<char>)
    requires
        forall|i: int| 0 <= i < s.len() ==> is_digit(#[trigger] s[i]),
    ensures
        digits_value(s) >= 0,
    decreases s.len(),
{
    if s.len() > 0 {
        assert(is_digit(s[s.len() - 1]));
        lemma_digits_value_nonneg(s.drop_last());
    }
}

proof fn lemma_single_block(b: Seq<Seq<char>>)
    requires
        forall|i: int| 0 <= i < b.len() ==> (#[trigger] b[i]).len() > 0,
    ensures
        blocks(b) == seq![b],
    decreases b.len(),
{
    if b.len() > 0 {
        let init = b.drop_last();
        assert forall|i: int| 0 <= i < init.len() implies (#[trigger] init[i]).len() > 0 by {
            assert(init[i] == b[i]);
        }
        lemma_single_block(init);
        assert(b[b.len() - 1].len() > 0);
        assert(init.push(b.last()) =~= b);
        assert(seq![init].update(0, init.push(b.last())) =~= seq![b]);
    } else {
        assert(b =~= seq![]);
    }
}

proof fn lemma_strongest_is_first_max(ss: Seq<Sighting>)
    requires
        ss.len() > 0,
    ensures
        strongest(ss) is Some,
        exists|k: int| 0 <= k < ss.len() && strongest(ss) == Some(ss[k])
            && (forall|j: int| 0 <= j < ss.len() ==> signal_value(#[trigger] ss[j].signal) <= signal_value(ss[k].signal))
            && (forall|j: int| 0 <= j < k ==> signal_value(#[trigger] ss[j].signal) < signal_value(ss[k].signal)),
    decreases ss.len(),
{
    let init = ss.drop_last();
    let n = ss.len() - 1;
    if init.len() == 0 {
        assert(strongest(ss) == Some(ss[0]));
        assert(ss.len() == 1);
    } else {
        lemma_strongest_is_first_max(init);
        let k = choose|k: int| 0 <= k < init.len() && strongest(init) == Some(init[k])
            && (forall|j: int| 0 <= j < init.len() ==> signal_value(#[trigger] init[j].signal) <= signal_value(init[k].signal))
            && (forall|j: int| 0 <= j < k ==> signal_value(#[trigger] init[j].signal) < signal_value(init[k].signal));
        assert(forall|j: int| 0 <= j < init.len() ==> init[j] == ss[j]);
        if signal_value(ss[n].signal) > signal_value(ss[k].signal) {
            assert(strongest(ss) == Some(ss[n]));
            assert forall|j: int| 0 <= j < n implies signal_value(#[trigger] ss[j].signal) < signal_value(ss[n].signal) by {
                assert(init[j] == ss[j]);
            }
        } else {
            assert(strongest(ss) == Some(ss[k]));
            assert forall|j: int| 0 <= j < ss.len() implies signal_value(#[trigger] ss[j].signal) <= signal_value(ss[k].signal) by {
                if j < n {
                    assert(init[j] == ss[j]);
                }
            }
            assert forall|j: int| 0 <= j < k implies signal_value(#[trigger] ss[j].signal) < signal_value(ss[k].signal) by {
                assert(init[j] == ss[j]);
            }
        }
    }
}

/// A block (lines with no empty one among them) whose access points all have
/// a BSSID yields exactly one record. It carries the access point of greatest
/// signal value, the first of them where several share it.
pub proof fn lemma_block_keeps_strongest(b: Seq<Seq<char>>)
    requires
        forall|i: int| 0 <= i < b.len() ==> (#[trigger] b[i]).len() > 0,
        block_state(b).sightings.len() > 0,
        forall|k: int| 0 <= k < block_state(b).sightings.len()
            ==> (#[trigger] block_state(b).sightings[k]).mac.len() > 0,
    ensures
        blocks_records(blocks(b)).len() == 1,
        ({
            let ss = block_state(b).sightings;
            let r = blocks_records(blocks(b))[0];
            exists|k: int| 0 <= k < ss.len() && r.mac == ss[k].mac && r.signal_level == ss[k].signal
                && r.channel == ss[k].channel
                && (forall|j: int| 0 <= j < ss.len() ==> signal_value(#[trigger] ss[j].signal) <= signal_value(ss[k].signal))
                && (forall|j: int| 0 <= j < k ==> signal_value(#[trigger] ss[j].signal) < signal_value(ss[k].signal))
        }),
{
    let ss = block_state(b).sightings;
    lemma_single_block(b);
    lemma_strongest_is_first_max(ss);
    let k = choose|k: int| 0 <= k < ss.len() && strongest(ss) == Some(ss[k])
        && (forall|j: int| 0 <= j < ss.len() ==> signal_value(#[trigger] ss[j].signal) <= signal_value(ss[k].signal))
        && (forall|j: int| 0 <= j < k ==> signal_value(#[trigger] ss[j].signal) < signal_value(ss[k].signal));
    assert(ss[k].mac.len() > 0);
    lemma_records_of_one_block(b);
    assert(block_record(b) is Some);
}

proof fn lemma_records_of_one_block(b: Seq<Seq<char>>)
    ensures
        blocks_records(seq![b]) == (match block_record(b) {
            Some(x) => seq![x],
            None => Seq::<NetworkRecord>::empty(),
        }),
{
    let one = seq![b];
    assert(one.drop_last() =~= Seq::<Seq<Seq<char>>>::empty());
    assert(one.last() == b);
    assert(blocks_records(one.drop_last()) == Seq::<NetworkRecord>::empty());
    assert(Seq::<NetworkRecord>::empty().push(block_record(b)->0) =~= seq![block_record(b)->0]);
}

proof fn lemma_no_bssid_no_mac(b: Seq<Seq<char>>)
    requires
        forall|i: int| 0 <= i < b.len() && words(b[i]).len() > 0 ==> words(#[trigger] b[i])[0] != "BSSID"@,
    ensures
        block_state(b).pending_mac.len() == 0,
        forall|k: int| 0 <= k < block_state(b).sightings.len()
            ==> (#[trigger] block_state(b).sightings[k]).mac.len() == 0,
    decreases b.len(),
{
    if b.len() > 0 {
        let init = b.drop_last();
        assert forall|i: int| 0 <= i < init.len() && words(init[i]).len() > 0 implies words(#[trigger] init[i])[0] != "BSSID"@ by {
            assert(init[i] == b[i]);
        }
        lemma_no_bssid_no_mac(init);
        assert(words(b[b.len() - 1]).len() > 0 ==> words(b[b.len() - 1])[0] != "BSSID"@);
    }
}

proof fn lemma_strongest_is_one_of(ss: Seq<Sighting>)
    ensures
        strongest(ss) matches Some(s) ==> exists|k: int| 0 <= k < ss.len() && ss[k] == s,
    decreases ss.len(),
{
    if ss.len() > 0 {
        lemma_strongest_is_one_of(ss.drop_last());
        if let Some(s) = strongest(ss.drop_last()) {
            let k = choose|k: int| 0 <= k < ss.drop_last().len() && ss.drop_last()[k] == s;
            assert(ss[k] == s);
        }
        assert(ss[ss.len() - 1] == ss.last());
    }
}

/// A block (lines with no empty one among them) in which no line starts with
/// `BSSID` yields no record.
pub proof fn lemma_block_without_bssid(b: Seq<Seq<char>>)
    requires
        forall|i: int| 0 <= i < b.len() ==> (#[trigger] b[i]).len() > 0,
        forall|i: int| 0 <= i < b.len() && words(b[i]).len() > 0 ==> words(#[trigger] b[i])[0] != "BSSID"@,
    ensures
        blocks_records(blocks(b)) == Seq::<NetworkRecord>::empty(),
{
    lemma_single_block(b);
    lemma_no_bssid_no_mac(b);
    lemma_strongest_is_one_of(block_state(b).sightings);
    assert(block_record(b) is None);
    lemma_records_of_one_block(b);
}

/// The lines of a block that describes a record with one access point.
pub open spec fn record_block(r: NetworkRecord) -> Seq<Seq<char>> {
    seq![
        join_words(seq!["SSID"@, "1"@, ":"@, r.ssid]),
        join_words(seq!["Authentication"@, ":"@, r.security]),
        join_words(seq!["BSSID"@, "1"@, ":"@, r.mac]),
        join_words(seq!["Signal"@, ":"@, r.signal_level + "%"@]),
        join_words(seq!["Channel"@, ":"@, r.channel]),
    ]
}

fn joined(ws: Vec<&str>) -> (r: String)
    requires
        ws.len() > 0,
    ensures
        r@ == join_words(ws@.map_values(|w: &str| w@)),
{
    let ghost wv = ws@.map_values(|w: &str| w@);
    let mut s = ws[0].to_owned();
    let mut i: usize = 1;
    proof {
        assert(wv.take(1) =~= seq![wv[0]]);
        reveal_with_fuel(join_words, 2);
    }
    while i < ws.len()
        invariant
            1 <= i <= ws.len(),
            wv == ws@.map_values(|w: &str| w@),
            s@ == join_words(wv.take(i as int)),
        decreases ws.len() - i,
    {
        s = s.concat(" ");
        s = s.concat(ws[i]);
        proof {
            reveal_strlit(" ");
            assert(wv.take(i + 1).drop_last() =~= wv.take(i as int));
            assert(s@ =~= join_words(wv.take(i + 1)));
        }
        i += 1;
    }
    proof {
        assert(wv.take(ws.len() as int) =~= wv);
    }
    s
}

/// The lines of a record written as a block of one access point.
pub fn format_block(w: &AvailableWifi) -> (r: Vec<String>)
    ensures
        strings_view(r@) == record_block(w@),
{
    let signal = w.signal_level.clone().concat("%");
    let l0 = vec!["SSID", "1", ":", w.ssid.as_str()];
    let l1 = vec!["Authentication", ":", w.security.as_str()];
    let l2 = vec!["BSSID", "1", ":", w.mac.as_str()];
    let l3 = vec!["Signal", ":", signal.as_str()];
    let l4 = vec!["Channel", ":", w.channel.as_str()];
    proof {
        assert(l0@.map_values(|x: &str| x@) =~= seq!["SSID"@, "1"@, ":"@, w.ssid@]);
        assert(l1@.map_values(|x: &str| x@) =~= seq!["Authentication"@, ":"@, w.security@]);
        assert(l2@.map_values(|x: &str| x@) =~= seq!["BSSID"@, "1"@, ":"@, w.mac@]);
        assert(l3@.map_values(|x: &str| x@) =~= seq!["Signal"@, ":"@, w.signal_level@ + "%"@]);
        assert(l4@.map_values(|x: &str| x@) =~= seq!["Channel"@, ":"@, w.channel@]);
    }
    let mut r: Vec<String> = Vec::new();
    r.push(joined(l0));
    r.push(joined(l1));
    r.push(joined(l2));
    r.push(joined(l3));
    r.push(joined(l4));
    proof {
        assert(strings_view(r@) =~= record_block(w@));
    }
    r
}

/// A record of the block format, its fields single words, comes back
/// unchanged from the block that `record_block` writes for it.
pub proof fn lemma_block_round_trip(r: NetworkRecord)
    requires
        is_word(r.ssid),
        is_word(r.security),
        is_word(r.mac),
        is_word(r.signal_level),
        is_word(r.channel),
        !r.in_use,
    ensures
        blocks_records(blocks(record_block(r))) == seq![r],
{
    reveal_strlit("SSID");
    reveal_strlit("1");
    reveal_strlit(":");
    reveal_strlit("Authentication");
    reveal_strlit("BSSID");
    reveal_strlit("Signal");
    reveal_strlit("Channel");
    reveal_strlit("%");
    let sig = r.signal_level + "%"@;
    assert(is_word(sig)) by {
        assert forall|i: int| 0 <= i < sig.len() implies !crate::text::is_space(#[trigger] sig[i]) by {
            if i < r.signal_level.len() {
                assert(sig[i] == r.signal_level[i]);
            }
        }
    }
    assert(sig.drop_last() =~= r.signal_level);
    let w0 = seq!["SSID"@, "1"@, ":"@, r.ssid];
    let w1 = seq!["Authentication"@, ":"@, r.security];
    let w2 = seq!["BSSID"@, "1"@, ":"@, r.mac];
    let w3 = seq!["Signal"@, ":"@, sig];
    let w4 = seq!["Channel"@, ":"@, r.channel];
    assert(forall|i: int| 0 <= i < w0.len() ==> is_word(#[trigger] w0[i]));
    assert(forall|i: int| 0 <= i < w1.len() ==> is_word(#[trigger] w1[i]));
    assert(forall|i: int| 0 <= i < w2.len() ==> is_word(#[trigger] w2[i]));
    assert(forall|i: int| 0 <= i < w3.len() ==> is_word(#[trigger] w3[i]));
    assert(forall|i: int| 0 <= i < w4.len() ==> is_word(#[trigger] w4[i]));
    lemma_words_of_join(w0);
    lemma_words_of_join(w1);
    lemma_words_of_join(w2);
    lemma_words_of_join(w3);
    lemma_words_of_join(w4);
    let b = record_block(r);
    assert forall|i: int| 0 <= i < b.len() implies (#[trigger] b[i]).len() > 0 by {
        assert(words(b[i]).len() > 0);
        if b[i].len() == 0 {
            assert(b[i] =~= Seq::<char>::empty());
            assert(crate::text::words_scan(Seq::<char>::empty()) == (Seq::<Seq<char>>::empty(), Seq::<char>::empty()));
        }
    }
    let s0 = fresh_block();
    let s1 = block_step(s0, w0);
    let s2 = block_step(s1, w1);
    let s3 = block_step(s2, w2);
    let s4 = block_step(s3, w3);
    let s5 = block_step(s4, w4);
    assert(b.take(0) =~= Seq::<Seq<char>>::empty());
    assert forall|k: int| 1 <= k <= 5 implies (#[trigger] b.take(k)).drop_last() =~= b.take(k - 1)
        && b.take(k).last() == b[k - 1] by {}
    assert(block_state(b.take(0)) == s0);
    assert(block_state(b.take(1)) == s1);
    assert(block_state(b.take(2)) == s2);
    assert(block_state(b.take(3)) == s3);
    assert(block_state(b.take(4)) == s4);
    assert(block_state(b.take(5)) == s5);
    assert(b.take(5) =~= b);
    let one = Sighting { mac: r.mac, signal: r.signal_level, channel: r.channel };
    assert(s5.sightings =~= seq![one]);
    assert(seq![one].drop_last() =~= Seq::<Sighting>::empty());
    assert(strongest(Seq::<Sighting>::empty()) is None);
    assert(strongest(seq![one]) == Some(one));
    assert(strongest(s5.sightings) == Some(one));
    lemma_single_block(b);
    lemma_records_of_one_block(b);
}

/// The strongest access point of a block so far, with its signal value.
struct Strongest {
    mac: Vec<char>,
    signal: Vec<char>,
    channel: Vec<char>,
    value: i64,
}

/// A block being read.
struct BlockBuilder {
    ssid: Vec<char>,
    security: Vec<char>,
    mac: Vec<char>,
    signal: Vec<char>,
    best: Option<Strongest>,
    sightings: Ghost<Seq<Sighting>>,
}

impl BlockBuilder {
    spec fn state(&self) -> BlockState {
        BlockState {
            ssid: self.ssid@,
            security: self.security@,
            pending_mac: self.mac@,
            pending_signal: self.signal@,
            sightings: self.sightings@,
        }
    }

    spec fn best_matches(&self) -> bool {
        match strongest(self.sightings@) {
            None => self.best is None,
            Some(s) => self.best matches Some(b) && b.mac@ == s.mac && b.signal@ == s.signal
                && b.channel@ == s.channel && b.value == signal_value(s.signal),
        }
    }

    fn new() -> (r: BlockBuilder)
        ensures
            r.state() == fresh_block(),
            r.best_matches(),
    {
        BlockBuilder {
            ssid: Vec::new(),
            security: Vec::new(),
            mac: Vec::new(),
            signal: Vec::new(),
            best: None,
            sightings: Ghost(Seq::empty()),
        }
    }

    fn step(&mut self, ws: &Vec<Vec<char>>)
        requires
            old(self).best_matches(),
        ensures
            final(self).state() == block_step(old(self).state(), ws@.map_values(|x: Vec<char>| x@)),
            final(self).best_matches(),
    {
        let ghost wv = ws@.map_values(|x: Vec<char>| x@);
        if ws.len() == 0 {
            return;
        }
        let n = ws.len();
        if equals_str(&ws[0], "SSID") {
            if n > 3 {
                self.ssid = ws[3].clone();
            }
        } else if equals_str(&ws[0], "Authentication") {
            if n > 2 {
                self.security = ws[2].clone();
            }
        } else if equals_str(&ws[0], "BSSID") {
            self.mac = if n > 3 { ws[3].clone() } else { Vec::new() };
        } else if equals_str(&ws[0], "Signal") {
            if n > 2 {
                let w = &ws[2];
                let mut t = w.clone();
                if t.len() > 0 && t[t.len() - 1] == '%' {
                    t.pop();
                }
                self.signal = t;
            } else {
                self.signal = chars_of("0");
            }
        } else if equals_str(&ws[0], "Channel") {
            let channel = if n > 2 { ws[2].clone() } else { Vec::new() };
            let ghost sighting = Sighting { mac: self.mac@, signal: self.signal@, channel: channel@ };
            let value = signal_of(&self.signal);
            let ghost prev = self.sightings@;
            let replace = match &self.best {
                None => true,
                Some(b) => value > b.value,
            };
            if replace {
                self.best = Some(
                    Strongest { mac: self.mac.clone(), signal: self.signal.clone(), channel, value },
                );
            }
            proof {
                self.sightings = Ghost(prev.push(sighting));
            }
            proof {
                assert(self.sightings@.drop_last() == prev);
            }
        }
        proof {
            assert(self.state() =~= block_step(old(self).state(), wv));
        }
    }

    fn finish(&self) -> (r: Option<AvailableWifi>)
        requires
            self.best_matches(),
        ensures
            r matches Some(w) ==> state_record(self.state()) == Some(w@),
            r is None ==> state_record(self.state()) is None,
    {
        match &self.best {
            None => None,
            Some(b) => if b.mac.len() > 0 {
                Some(
                    AvailableWifi {
                        ssid: string_of(&self.ssid),
                        mac: string_of(&b.mac),
                        channel: string_of(&b.channel),
                        signal_level: string_of(&b.signal),
                        security: string_of(&self.security),
                        in_use: false,
                    },
                )
            } else {
                None
            },
        }
    }
}

/// Parses the output of `netsh wlan show networks mode=bssid`.
pub fn parse_netsh_scan(text: &str) -> (r: Vec<AvailableWifi>)
    ensures
        records_view(r@) == netsh_scan(text@),
{
    let cs = chars_of(text);
    let ls = split_lines(&cs);
    let ghost lv = ls@.map_values(|l: Vec<char>| l@);
    let mut out: Vec<AvailableWifi> = Vec::new();
    let mut blk = BlockBuilder::new();
    let mut i: usize = 0;
    proof {
        assert(lv.take(0) =~= seq![]);
    }
    while i < ls.len()
        invariant
            i <= ls.len(),
            lv == ls@.map_values(|l: Vec<char>| l@),
            lv == lines(text@),
            blocks(lv.take(i as int)).len() > 0,
            records_view(out@) == blocks_records(blocks(lv.take(i as int)).drop_last()),
            blk.state() == block_state(blocks(lv.take(i as int)).last()),
            blk.best_matches(),
        decreases ls.len() - i,
    {
        let ghost bs = blocks(lv.take(i as int));
        let ghost line = lv[i as int];
        proof {
            assert(lv.take(i + 1).drop_last() =~= lv.take(i as int));
            assert(lv.take(i + 1).last() == line);
            assert(line == ls@[i as int]@);
        }
        if ls[i].len() == 0 {
            let rec = blk.finish();
            match rec {
                Some(w) => {
                    out.push(w);
                },
                None => {},
            }
            blk = BlockBuilder::new();
            proof {
                let nb = blocks(lv.take(i + 1));
                assert(nb == bs.push(seq![]));
                assert(nb.drop_last() =~= bs);
                assert(records_view(out@) =~= blocks_records(bs));
                assert(block_state(nb.last()) == fresh_block());
            }
        } else {
            let ws = split_words(&ls[i]);
            blk.step(&ws);
            proof {
                let nb = blocks(lv.take(i + 1));
                assert(nb == bs.update(bs.len() - 1, bs.last().push(line)));
                assert(nb.drop_last() =~= bs.drop_last());
                assert(nb.last().drop_last() =~= bs.last());
            }
        }
        i += 1;
    }
    proof {
        assert(lv.take(ls.len() as int) =~= lv);
    }
    let rec = blk.finish();
    match rec {
        Some(w) => {
            out.push(w);
        },
        None => {},
    }
    proof {
        assert(records_view(out@) =~= blocks_records(blocks(lv)));
    }
    out
}

} // verus!
