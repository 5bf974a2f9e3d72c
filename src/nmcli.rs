//! The tabular scan format: a header line, then one network per line with
//! the columns IN-USE, BSSID, SSID, CHAN, SIGNAL and SECURITY.
use vstd::prelude::*;
use crate::model::{AvailableWifi, NetworkRecord, records_view};
use crate::text::{
    chars_of, equals_str, is_word, join_words, lemma_words_of_join, lines, split_lines, split_words,
    string_of, words,
};

verus! {

/// Whether the first word of a data line marks the network in use.
pub open spec fn marks_in_use(first: Seq<char>) -> bool {
    first == "*"@
}

/// The number of words before the BSSID: one after the in-use marker, else none.
pub open spec fn mac_at(ws: Seq<Seq<char>>) -> int {
    if marks_in_use(ws[0]) { 1 } else { 0 }
}

/// Whether a data line has all the columns a record needs.
pub open spec fn is_full_row(ws: Seq<Seq<char>>) -> bool {
    ws.len() > 0 && ws[0] != "IN-USE"@ && ws.len() >= mac_at(ws) + 5
}

/// The record of one data line, given its words; none for a repeated header
/// or a line that lacks a column. A sixth column after the BSSID, where
/// present, is the security label in place of the fifth.
pub open spec fn row_record(ws: Seq<Seq<char>>) -> Option<NetworkRecord> {
    if !is_full_row(ws) {
        None
    } else {
        let k = mac_at(ws);
        Some(NetworkRecord {
            mac: ws[k],
            ssid: ws[k + 1],
            channel: ws[k + 2],
            signal_level: ws[k + 3],
            security: if ws.len() > k + 5 { ws[k + 5] } else { ws[k + 4] },
            in_use: marks_in_use(ws[0]),
        })
    }
}

/// The records of a sequence of data lines, in order.
pub open spec fn rows_records(ls: Seq<Seq<char>>) -> Seq<NetworkRecord>
    decreases ls.len(),
{
    if ls.len() == 0 {
        seq![]
    } else {
        let r = rows_records(ls.drop_last());
        match row_record(words(ls.last())) {
            Some(x) => r.push(x),
            None => r,
        }
    }
}

/// The data lines of a scan output: every line after the header.
pub open spec fn data_lines(text: Seq<char>) -> Seq<Seq<char>> {
    let ls = lines(text);
    if ls.len() == 0 {
        seq![]
    } else {
        ls.drop_first()
    }
}

/// The records of a tabular scan output.
pub open spec fn nmcli_scan(text: Seq<char>) -> Seq<NetworkRecord> {
    rows_records(data_lines(text))
}

fn parse_row(ws: &Vec<Vec<char>>) -> (r: Option<AvailableWifi>)
    ensures
        r matches Some(w) ==> row_record(ws@.map_values(|x: Vec<char>| x@)) == Some(w@),
        r is None ==> row_record(ws@.map_values(|x: Vec<char>| x@)) is None,
{
    let ghost wv = ws@.map_values(|x: Vec<char>| x@);
    if ws.len() == 0 || equals_str(&ws[0], "IN-USE") {
        return None;
    }
    let in_use = equals_str(&ws[0], "*");
    let k: usize = if in_use { 1 } else { 0 };
    if ws.len() < k + 5 {
        return None;
    }
    let security = if ws.len() > k + 5 { string_of(&ws[k + 5]) } else { string_of(&ws[k + 4]) };
    let w = AvailableWifi {
        mac: string_of(&ws[k]),
        ssid: string_of(&ws[k + 1]),
        channel: string_of(&ws[k + 2]),
        signal_level: string_of(&ws[k + 3]),
        security,
        in_use,
    };
    proof {
        assert(mac_at(wv) == k);
    }
    Some(w)
}

/// Parses the output of `nmcli -f IN-USE,BSSID,SSID,CHAN,SIGNAL,SECURITY d wifi list`.
pub fn parse_nmcli_scan(text: &str) -> (r: Vec<AvailableWifi>)
    ensures
        records_view(r@) == nmcli_scan(text@),
{
    let cs = chars_of(text);
    let ls = split_lines(&cs);
    let ghost lv = ls@.map_values(|l: Vec<char>| l@);
    let mut out: Vec<AvailableWifi> = Vec::new();
    if ls.len() == 0 {
        return out;
    }
    let ghost data = lv.drop_first();
    let mut i: usize = 1;
    while i < ls.len()
        invariant
            1 <= i <= ls.len(),
            lv == ls@.map_values(|l: Vec<char>| l@),
            lv == lines(text@),
            data == lv.drop_first(),
            records_view(out@) == rows_records(data.take(i - 1)),
        decreases ls.len() - i,
    {
        let ws = split_words(&ls[i]);
        let row = parse_row(&ws);
        proof {
            assert(data.take(i as int).drop_last() == data.take(i - 1));
            assert(data.take(i as int).last() == ls@[i as int]@);
        }
        match row {
            Some(w) => {
                out.push(w);
                proof {
                    assert(records_view(out@) =~= rows_records(data.take(i as int)));
                }
            },
            None => {},
        }
        i += 1;
    }
    proof {
        assert(data.take(ls.len() - 1) == data);
    }
    out
}

/// The words of a record's line in the tabular format: the in-use marker
/// where the network is in use, then BSSID, SSID, channel, signal and security.
pub open spec fn row_words(r: NetworkRecord) -> Seq<Seq<char>> {
    (if r.in_use {
        seq!["*"@]
    } else {
        seq![]
    }) + seq![r.mac, r.ssid, r.channel, r.signal_level, r.security]
}

/// The line of a record in the tabular format, its columns one space apart.
pub fn format_row(w: &AvailableWifi) -> (r: String)
    ensures
        r@ == join_words(row_words(w@)),
{
    let mut s = if w.in_use {
        "* ".to_owned()
    } else {
        String::new()
    };
    s = s.concat(w.mac.as_str());
    s = s.concat(" ");
    s = s.concat(w.ssid.as_str());
    s = s.concat(" ");
    s = s.concat(w.channel.as_str());
    s = s.concat(" ");
    s = s.concat(w.signal_level.as_str());
    s = s.concat(" ");
    s = s.concat(w.security.as_str());
    proof {
        reveal_strlit("* ");
        reveal_strlit(" ");
        reveal_strlit("*");
        reveal_with_fuel(join_words, 7);
        let ws = row_words(w@);
        if w.in_use {
            assert(ws =~= seq!["*"@, w.mac@, w.ssid@, w.channel@, w.signal_level@, w.security@]);
            assert(ws.drop_last().drop_last().drop_last().drop_last().drop_last() =~= seq!["*"@]);
        } else {
            assert(ws =~= seq![w.mac@, w.ssid@, w.channel@, w.signal_level@, w.security@]);
            assert(ws.drop_last().drop_last().drop_last().drop_last() =~= seq![w.mac@]);
        }
        assert(s@ =~= join_words(ws));
    }
    s
}

/// A record whose fields are single words comes back unchanged from its line
/// in the tabular format, provided that a BSSID at the start of the line
/// cannot be taken for the in-use marker or the header.
pub proof fn lemma_row_round_trip(r: NetworkRecord)
    requires
        is_word(r.mac),
        is_word(r.ssid),
        is_word(r.channel),
        is_word(r.signal_level),
        is_word(r.security),
        !r.in_use ==> r.mac != "*"@ && r.mac != "IN-USE"@,
    ensures
        row_record(words(join_words(row_words(r)))) == Some(r),
{
    let ws = row_words(r);
    reveal_strlit("*");
    reveal_strlit("IN-USE");
    assert(is_word("*"@));
    assert(forall|i: int| 0 <= i < ws.len() ==> is_word(#[trigger] ws[i]));
    lemma_words_of_join(ws);
    assert("*"@ != "IN-USE"@) by {
        assert("*"@.len() != "IN-USE"@.len());
    }
}

proof fn lemma_full_rows_all_count(ls: Seq<Seq<char>>)
    requires
        forall|i: int| 0 <= i < ls.len() ==> is_full_row(words(#[trigger] ls[i])),
    ensures
        rows_records(ls).len() == ls.len(),
    decreases ls.len(),
{
    if ls.len() > 0 {
        let init = ls.drop_last();
        assert forall|i: int| 0 <= i < init.len() implies is_full_row(words(#[trigger] init[i])) by {
            assert(init[i] == ls[i]);
        }
        lemma_full_rows_all_count(init);
        assert(is_full_row(words(ls[ls.len() - 1])));
    }
}

/// When every line after the header has all its columns and none repeats the
/// header, the scan yields one record per data line.
pub proof fn lemma_one_record_per_row(text: Seq<char>)
    requires
        forall|i: int| 0 <= i < data_lines(text).len() ==> is_full_row(words(#[trigger] data_lines(text)[i])),
    ensures
        nmcli_scan(text).len() == data_lines(text).len(),
{
    lemma_full_rows_all_count(data_lines(text));
}

/// A line gives a network in use exactly when its first word is the in-use marker.
pub proof fn lemma_in_use_marker(line: Seq<char>)
    requires
        row_record(words(line)) is Some,
    ensures
        row_record(words(line))->0.in_use <==> words(line)[0] == "*"@,
{
}

/// Where a line has both a security label and an alternate one after it,
/// the record carries the alternate.
pub proof fn lemma_alternate_security_wins(line: Seq<char>)
    requires
        is_full_row(words(line)),
        words(line).len() > mac_at(words(line)) + 5,
    ensures
        row_record(words(line))->0.security == words(line)[mac_at(words(line)) + 5],
{
}

} // verus!
