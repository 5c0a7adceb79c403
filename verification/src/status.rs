//! Network-status reporting: classifies the output of the system's
//! connection tools, extracts the joined network's name, and renders
//! the result as a small JSON document for publication.
//!
//! Everything here computes over plain text handed in by the caller;
//! running the system tools and publishing the result stay outside.

use vstd::prelude::*;
use crate::header::str_eq;

verus! {

/// ASCII whitespace, the only whitespace these tools emit.
pub open spec fn is_space(c: char) -> bool {
    c == ' ' || c == '\t' || c == '\r' || c == '\n'
}

/// Whether `c` is ASCII whitespace.
pub fn is_space_char(c: char) -> (r: bool)
    ensures
        r == is_space(c),
{
    c == ' ' || c == '\t' || c == '\r' || c == '\n'
}

/// `s` without its leading whitespace.
pub open spec fn spec_trim_front(s: Seq<char>) -> Seq<char>
    decreases s.len(),
{
    if s.len() > 0 && is_space(s[0]) {
        spec_trim_front(s.drop_first())
    } else {
        s
    }
}

/// `s` without its trailing whitespace.
pub open spec fn spec_trim_back(s: Seq<char>) -> Seq<char>
    decreases s.len(),
{
    if s.len() > 0 && is_space(s[s.len() - 1]) {
        spec_trim_back(s.drop_last())
    } else {
        s
    }
}

/// `s` without leading and trailing whitespace.
pub open spec fn spec_trim(s: Seq<char>) -> Seq<char> {
    spec_trim_back(spec_trim_front(s))
}

/// The index of the first whitespace-free position: everything
/// before it is whitespace.
fn scan_front(s: &str) -> (i: usize)
    ensures
        i <= s@.len(),
        spec_trim_front(s@) == s@.skip(i as int),
{
    let n = s.unicode_len();
    let mut i: usize = 0;
    proof {
        assert(s@.skip(0) =~= s@);
    }
    while i < n && is_space_char(s.get_char(i))
        invariant
            n == s@.len(),
            i <= n,
            spec_trim_front(s@) == spec_trim_front(s@.skip(i as int)),
        decreases n - i,
    {
        proof {
            assert(s@.skip(i as int)[0] == s@[i as int]);
            assert(s@.skip(i as int).drop_first() =~= s@.skip(i as int + 1));
        }
        i = i + 1;
    }
    proof {
        if i < n {
            assert(s@.skip(i as int)[0] == s@[i as int]);
        } else {
            assert(s@.skip(i as int) =~= Seq::<char>::empty());
        }
    }
    i
}

/// Removes leading and trailing whitespace.
pub fn trim_str(s: &str) -> (r: String)
    ensures
        r@ == spec_trim(s@),
{
    let n = s.unicode_len();
    let i = scan_front(s);
    let mut j: usize = n;
    proof {
        assert(s@.skip(i as int) =~= s@.subrange(i as int, n as int));
    }
    while j > i && is_space_char(s.get_char(j - 1))
        invariant
            n == s@.len(),
            i <= j <= n,
            spec_trim_front(s@) == s@.skip(i as int),
            spec_trim_back(s@.skip(i as int)) == spec_trim_back(
                s@.subrange(i as int, j as int),
            ),
        decreases j,
    {
        proof {
            let sub = s@.subrange(i as int, j as int);
            assert(sub[sub.len() - 1] == s@[j - 1]);
            assert(sub.drop_last() =~= s@.subrange(i as int, j as int - 1));
        }
        j = j - 1;
    }
    proof {
        let sub = s@.subrange(i as int, j as int);
        if j > i {
            assert(sub[sub.len() - 1] == s@[j - 1]);
        }
        assert(spec_trim_back(sub) == sub);
    }
    s.substring_char(i, j).to_owned()
}

/// The index of the first occurrence of `c` in `s`, or `-1`.
pub open spec fn find_char(s: Seq<char>, c: char) -> int
    decreases s.len(),
{
    if s.len() == 0 {
        -1
    } else if s[0] == c {
        0
    } else {
        let rest = find_char(s.drop_first(), c);
        if rest == -1 {
            -1
        } else {
            rest + 1
        }
    }
}

/// A prefix without `c` and a match at its end pin the index down.
pub proof fn lemma_find_char_at(s: Seq<char>, c: char, i: int)
    requires
        0 <= i < s.len(),
        s[i] == c,
        forall|j: int| 0 <= j < i ==> s[j] != c,
    ensures
        find_char(s, c) == i,
    decreases i,
{
    if i > 0 {
        assert(s.drop_first()[i - 1] == c);
        assert(forall|j: int| 0 <= j < i - 1 ==> s.drop_first()[j] != c);
        lemma_find_char_at(s.drop_first(), c, i - 1);
    }
}

/// A sequence without `c` anywhere answers `-1`.
pub proof fn lemma_find_char_absent(s: Seq<char>, c: char)
    requires
        forall|j: int| 0 <= j < s.len() ==> s[j] != c,
    ensures
        find_char(s, c) == -1,
    decreases s.len(),
{
    if s.len() > 0 {
        assert(forall|j: int| 0 <= j < s.len() - 1 ==> s.drop_first()[j] != c);
        lemma_find_char_absent(s.drop_first(), c);
    }
}

/// Finds the first occurrence of `c`.
pub fn find_char_str(s: &str, c: char) -> (r: Option<usize>)
    ensures
        match r {
            Some(i) => i < s@.len() && find_char(s@, c) == i as int && s@[i as int] == c,
            None => find_char(s@, c) == -1,
        },
{
    let n = s.unicode_len();
    for i in 0..n
        invariant
            n == s@.len(),
            forall|j: int| 0 <= j < i ==> s@[j] != c,
    {
        if s.get_char(i) == c {
            proof {
                lemma_find_char_at(s@, c, i as int);
            }
            return Some(i);
        }
    }
    proof {
        lemma_find_char_absent(s@, c);
    }
    None
}

/// The first space-delimited word of `l`, after leading whitespace;
/// empty when `l` holds only whitespace.
pub open spec fn spec_first_word(l: Seq<char>) -> Seq<char> {
    let lf = spec_trim_front(l);
    let k = find_char(lf, ' ');
    if k == -1 {
        lf
    } else {
        lf.take(k)
    }
}

/// Extracts the first space-delimited word.
pub fn first_word_str(l: &str) -> (r: String)
    ensures
        r@ == spec_first_word(l@),
{
    let n = l.unicode_len();
    let i = scan_front(l);
    let lf = l.substring_char(i, n);
    proof {
        assert(lf@ =~= l@.skip(i as int));
    }
    match find_char_str(lf, ' ') {
        Some(k) => {
            proof {
                assert(lf@.subrange(0, k as int) =~= lf@.take(k as int));
            }
            lf.substring_char(0, k).to_owned()
        },
        None => lf.to_owned(),
    }
}

/// `n` spaces.
pub open spec fn spaces(n: int) -> Seq<char> {
    Seq::new(
        if n >= 0 {
            n as nat
        } else {
            0
        },
        |i: int| ' ',
    )
}

/// A value centered in a field of `width`: equal padding on both
/// sides, rounded down, or the value unchanged when it already fills
/// the field.
pub open spec fn spec_center(s: Seq<char>, width: int) -> Seq<char> {
    if width <= s.len() {
        s
    } else {
        spaces((width - s.len()) / 2) + s + spaces((width - s.len()) / 2)
    }
}

/// Centers an address in a field of `total_width` by surrounding it
/// with equal runs of spaces; an address at least as wide as the
/// field is returned unchanged.
pub fn center_ip_address(ip_address: &str, total_width: usize) -> (r: String)
    ensures
        r@ == spec_center(ip_address@, total_width as int),
{
    let ip_length = ip_address.unicode_len();
    if total_width <= ip_length {
        return ip_address.to_owned();
    }
    let padding = (total_width - ip_length) / 2;
    let mut pad = String::new();
    proof {
        reveal_strlit(" ");
        assert(pad@ =~= spaces(0));
    }
    for k in 0..padding
        invariant
            pad@ == spaces(k as int),
    {
        pad.append(" ");
        proof {
            reveal_strlit(" ");
            assert(pad@ =~= spaces(k as int + 1));
        }
    }
    let mut r = String::new();
    r.append(pad.as_str());
    r.append(ip_address);
    r.append(pad.as_str());
    proof {
        assert(r@ =~= spec_center(ip_address@, total_width as int));
    }
    r
}

/// The numeric mode published for each network classification.
pub open spec fn spec_network_mode(t: Seq<char>) -> u8 {
    if t == "hotspot"@ {
        2
    } else if t == "wifi"@ {
        1
    } else if t == "no_connection"@ {
        0
    } else {
        4
    }
}

/// Maps a network classification to its published numeric mode.
pub fn network_mode(network_type: &str) -> (m: u8)
    ensures
        m == spec_network_mode(network_type@),
{
    if str_eq(network_type, "hotspot") {
        2
    } else if str_eq(network_type, "wifi") {
        1
    } else if str_eq(network_type, "no_connection") {
        0
    } else {
        4
    }
}

/// Splits an address report of the form `external internal` at its
/// first space; a report without a space yields two empty parts.
pub open spec fn spec_split_ip(line: Seq<char>) -> (Seq<char>, Seq<char>) {
    let f = find_char(line, ' ');
    if f == -1 {
        (Seq::empty(), Seq::empty())
    } else {
        (line.take(f), line.skip(f + 1))
    }
}

/// Splits an address report at its first space into the external and
/// the internal address.
pub fn split_ip_line(line: &str) -> (r: (String, String))
    ensures
        r.0@ == spec_split_ip(line@).0,
        r.1@ == spec_split_ip(line@).1,
{
    let n = line.unicode_len();
    match find_char_str(line, ' ') {
        Some(f) => {
            proof {
                assert(line@.subrange(0, f as int) =~= line@.take(f as int));
                assert(line@.subrange(f as int + 1, n as int) =~= line@.skip(f as int + 1));
            }
            (line.substring_char(0, f).to_owned(), line.substring_char(f + 1, n).to_owned())
        },
        None => (String::new(), String::new()),
    }
}

/// How a connection table is read, line by line: no second line
/// means no connection; a non-blank third line means two active
/// entries, so an ordinary network; otherwise the second line's first
/// word decides between the process's own hotspot and an ordinary
/// network.
pub open spec fn spec_classify(out: Seq<char>) -> Seq<char> {
    let t = spec_trim(out);
    let f1 = find_char(t, '\n');
    if f1 == -1 {
        "no_connection"@
    } else {
        let rest1 = t.skip(f1 + 1);
        let f2 = find_char(rest1, '\n');
        if f2 != -1 && spec_trim(line_before_newline(rest1.skip(f2 + 1))).len() > 0 {
            "wifi"@
        } else {
            let line1 = if f2 == -1 {
                rest1
            } else {
                rest1.take(f2)
            };
            if spec_first_word(line1) == "Hotspot"@ {
                "hotspot"@
            } else {
                "wifi"@
            }
        }
    }
}

/// The text up to the first line break, or all of it.
pub open spec fn line_before_newline(s: Seq<char>) -> Seq<char> {
    let f = find_char(s, '\n');
    if f == -1 {
        s
    } else {
        s.take(f)
    }
}

/// Classifies the active-connection table of the system's network
/// tool, exactly as [`spec_classify`] reads it: `no_connection`,
/// `hotspot`, or `wifi`.
pub fn classify_network(stdout: &str) -> (r: String)
    ensures
        r@ == spec_classify(stdout@),
{
    let t = trim_str(stdout);
    let tl = t.as_str();
    let n = tl.unicode_len();
    match find_char_str(tl, '\n') {
        None => "no_connection".to_owned(),
        Some(f1) => {
            let rest1 = tl.substring_char(f1 + 1, n);
            proof {
                assert(rest1@ =~= t@.skip(f1 as int + 1));
            }
            let m = rest1.unicode_len();
            match find_char_str(rest1, '\n') {
                Some(f2) => {
                    let rest2 = rest1.substring_char(f2 + 1, m);
                    proof {
                        assert(rest2@ =~= rest1@.skip(f2 as int + 1));
                    }
                    let k = rest2.unicode_len();
                    let line2 = match find_char_str(rest2, '\n') {
                        Some(f3) => {
                            proof {
                                assert(rest2@.subrange(0, f3 as int) =~= rest2@.take(f3 as int));
                            }
                            rest2.substring_char(0, f3)
                        },
                        None => rest2,
                    };
                    let lt = trim_str(line2);
                    if !lt.as_str().is_empty() {
                        return "wifi".to_owned();
                    }
                    let line1 = rest1.substring_char(0, f2);
                    proof {
                        assert(line1@ =~= rest1@.take(f2 as int));
                    }
                    let w = first_word_str(line1);
                    if str_eq(w.as_str(), "Hotspot") {
                        "hotspot".to_owned()
                    } else {
                        "wifi".to_owned()
                    }
                },
                None => {
                    let w = first_word_str(rest1);
                    if str_eq(w.as_str(), "Hotspot") {
                        "hotspot".to_owned()
                    } else {
                        "wifi".to_owned()
                    }
                },
            }
        },
    }
}

/// The pattern occurs in `s` starting at position `i`.
pub open spec fn spec_contains_at(s: Seq<char>, pat: Seq<char>, i: int) -> bool {
    0 <= i && i + pat.len() <= s.len() && s.subrange(i, i + pat.len()) == pat
}

/// The pattern occurs somewhere in `s`.
pub open spec fn spec_contains(s: Seq<char>, pat: Seq<char>) -> bool {
    exists|i: int| spec_contains_at(s, pat, i)
}

/// Whether `pat` occurs in `s`.
pub fn contains_str(s: &str, pat: &str) -> (r: bool)
    ensures
        r == spec_contains(s@, pat@),
{
    let n = s.unicode_len();
    let m = pat.unicode_len();
    if m > n {
        proof {
            assert forall|j: int| !spec_contains_at(s@, pat@, j) by {}
        }
        return false;
    }
    if m == 0 {
        proof {
            assert(s@.subrange(0, 0) =~= pat@);
            assert(spec_contains_at(s@, pat@, 0));
        }
        return true;
    }
    let mut i: usize = 0;
    while n - i >= m
        invariant
            n == s@.len(),
            m == pat@.len(),
            1 <= m <= n,
            i <= n,
            forall|j: int| 0 <= j < i ==> !spec_contains_at(s@, pat@, j),
        decreases n - i,
    {
        let sub = s.substring_char(i, i + m);
        if str_eq(sub, pat) {
            proof {
                assert(spec_contains_at(s@, pat@, i as int));
            }
            return true;
        }
        proof {
            assert(!spec_contains_at(s@, pat@, i as int));
        }
        i = i + 1;
    }
    proof {
        assert forall|j: int| !spec_contains_at(s@, pat@, j) by {
            if 0 <= j && j + pat@.len() <= s@.len() {
                assert(j < i);
            }
        }
    }
    false
}

/// A found index lies inside the sequence.
pub proof fn lemma_find_char_range(s: Seq<char>, c: char)
    ensures
        find_char(s, c) == -1 || (0 <= find_char(s, c) < s.len()),
    decreases s.len(),
{
    if s.len() > 0 && s[0] != c {
        lemma_find_char_range(s.drop_first(), c);
    }
}

/// The first word of the first line of a device table that mentions
/// a wireless entry, line by line from the top; nothing when no line
/// does.
pub open spec fn spec_wifi_device(out: Seq<char>) -> Option<Seq<char>>
    decreases out.len(),
    via spec_wifi_device_dec
{
    let f = find_char(out, '\n');
    if f == -1 {
        if spec_contains(out, "wifi "@) {
            Some(spec_first_word(out))
        } else {
            None
        }
    } else {
        let line = out.take(f);
        if spec_contains(line, "wifi "@) {
            Some(spec_first_word(line))
        } else {
            spec_wifi_device(out.skip(f + 1))
        }
    }
}

#[via_fn]
proof fn spec_wifi_device_dec(out: Seq<char>) {
    lemma_find_char_range(out, '\n');
}

/// Finds the wireless device's name in the system tool's device
/// table: the first word of the first line mentioning a wireless
/// entry.
pub fn wifi_device_name(table: &str) -> (r: Option<String>)
    ensures
        match r {
            Some(w) => spec_wifi_device(table@) == Some(w@),
            None => spec_wifi_device(table@) is None,
        },
{
    let n = table.unicode_len();
    let mut start: usize = 0;
    proof {
        assert(table@.skip(0) =~= table@);
    }
    while start <= n
        invariant
            n == table@.len(),
            start <= n,
            spec_wifi_device(table@) == spec_wifi_device(table@.skip(start as int)),
        decreases n - start,
    {
        let ghost suffix = table@.skip(start as int);
        let rest = table.substring_char(start, n);
        proof {
            assert(rest@ =~= suffix);
        }
        match find_char_str(rest, '\n') {
            None => {
                if contains_str(rest, "wifi ") {
                    return Some(first_word_str(rest));
                }
                return None;
            },
            Some(f) => {
                let line = rest.substring_char(0, f);
                proof {
                    assert(line@ =~= suffix.take(f as int));
                }
                if contains_str(line, "wifi ") {
                    return Some(first_word_str(line));
                }
                proof {
                    assert(suffix.skip(f as int + 1) =~= table@.skip(
                        start as int + f as int + 1,
                    ));
                }
                start = start + f + 1;
            },
        }
    }
    proof {
        assert(table@.skip(start as int) =~= Seq::<char>::empty());
    }
    None
}

/// What the network-name pattern captures in a scan report: the
/// first capture group of `\bssid\s(.+)\b`, a function of the report
/// text alone.
pub uninterp spec fn ssid_match_of(s: Seq<char>) -> Option<Seq<char>>;

/// Relies on `regex::Regex::captures` with the fixed pattern
/// `\bssid\s(.+)\b`: the pattern is constant, so the first capture
/// group depends on the haystack alone.
#[verifier::external_body]
fn find_ssid_capture(output: &str) -> (r: Option<String>)
    ensures
        match r {
            Some(s) => ssid_match_of(output@) == Some(s@),
            None => ssid_match_of(output@) is None,
        },
{
    let re = regex::Regex::new("\\bssid\\s(.+)\\b").unwrap();
    match re.captures(output) {
        Some(c) => c.get(1).map(|m| m.as_str().to_string()),
        None => None,
    }
}

/// The network name reported for a wireless scan: the captured name,
/// trimmed, or the fetching placeholder when the report names none.
pub open spec fn spec_extract_ssid(out: Seq<char>) -> Seq<char> {
    match ssid_match_of(out) {
        Some(c) => spec_trim(c),
        None => "FETCHING-IP"@,
    }
}

/// Extracts the joined network's name from the wireless tool's
/// report, trimmed; a report without one yields the fetching
/// placeholder.
pub fn extract_ssid(output: &str) -> (r: String)
    ensures
        r@ == spec_extract_ssid(output@),
{
    match find_ssid_capture(output) {
        Some(c) => trim_str(c.as_str()),
        None => "FETCHING-IP".to_owned(),
    }
}

/// One network-status report, ready for rendering: the numeric mode,
/// the classification it came from, and the two display fields.
#[derive(Clone, Debug)]
pub struct NetworkReport {
    pub mode: u8,
    pub status: String,
    pub info: String,
    pub ip: String,
}

/// The info field owed for each mode: the centered network name on
/// an ordinary network, the centered host name on the hotspot, and a
/// connecting notice otherwise.
pub open spec fn spec_report_info(network_type: Seq<char>, iw: Seq<char>) -> Seq<char> {
    let m = spec_network_mode(network_type);
    if m == 1 {
        spec_center(spec_extract_ssid(iw), 15)
    } else if m == 2 {
        spec_center("ubuntu"@, 15)
    } else {
        "Connecting...."@
    }
}

/// The address field owed for each mode: the centered external
/// address while connected, a waiting notice otherwise.
pub open spec fn spec_report_ip(network_type: Seq<char>, ip_line: Seq<char>) -> Seq<char> {
    let m = spec_network_mode(network_type);
    if m == 1 || m == 2 {
        spec_center(spec_split_ip(ip_line).0, 15)
    } else {
        "Waiting for IP"@
    }
}

/// Builds the status report from the three raw texts: the network
/// classification, the wireless tool's scan report, and the address
/// report.
pub fn build_status_report(network_type: &str, iw_output: &str, ip_line: &str) -> (r:
    NetworkReport)
    ensures
        r.mode == spec_network_mode(network_type@),
        r.status@ == network_type@,
        r.info@ == spec_report_info(network_type@, iw_output@),
        r.ip@ == spec_report_ip(network_type@, ip_line@),
{
    let mode = network_mode(network_type);
    let parts = split_ip_line(ip_line);
    let info = if mode == 1 {
        let ssid = extract_ssid(iw_output);
        center_ip_address(ssid.as_str(), 15)
    } else if mode == 2 {
        center_ip_address("ubuntu", 15)
    } else {
        "Connecting....".to_owned()
    };
    let ip = if mode == 1 || mode == 2 {
        center_ip_address(parts.0.as_str(), 15)
    } else {
        "Waiting for IP".to_owned()
    };
    NetworkReport { mode: mode, status: network_type.to_owned(), info: info, ip: ip }
}

/// The rendered JSON document for one report: an object of the four
/// fields `mode`, `status`, `info` and `ip`, a function of their
/// values alone.
pub uninterp spec fn json_of(mode: int, status: Seq<char>, info: Seq<char>, ip: Seq<char>) -> Seq<
    char,
>;

/// Relies on `serde_json::to_string` on an object holding the four
/// fields: the rendering depends on the field values alone.
#[verifier::external_body]
fn json_status_string(mode: u8, status: &str, info: &str, ip: &str) -> (s: String)
    ensures
        s@ == json_of(mode as int, status@, info@, ip@),
{
    let mut m = serde_json::Map::new();
    m.insert("mode".to_string(), serde_json::Value::from(mode));
    m.insert("status".to_string(), serde_json::Value::from(status));
    m.insert("info".to_string(), serde_json::Value::from(info));
    m.insert("ip".to_string(), serde_json::Value::from(ip));
    match serde_json::to_string(&m) {
        Ok(s) => s,
        Err(_) => String::new(),
    }
}

/// Renders the whole network-status document from the three raw
/// texts: classification and mode, the display fields each mode
/// owes, and the JSON rendering of the four.
pub fn status_json(network_type: &str, iw_output: &str, ip_line: &str) -> (r: String)
    ensures
        r@ == json_of(
            spec_network_mode(network_type@) as int,
            network_type@,
            spec_report_info(network_type@, iw_output@),
            spec_report_ip(network_type@, ip_line@),
        ),
{
    let rep = build_status_report(network_type, iw_output, ip_line);
    json_status_string(rep.mode, rep.status.as_str(), rep.info.as_str(), rep.ip.as_str())
}

} // verus!
