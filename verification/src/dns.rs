//! DNS: reading A records out of DNS-over-HTTPS JSON answers, the wire format
//! of a plain DNS query and its answer, and the choice of resolver.

use vstd::prelude::*;
use vstd::string::StringSliceAdditionalSpecFns;
use vstd::utf8::{decode_utf8, valid_utf8};
use crate::ipv4::{Ipv4Addr, parse_ipv4, spec_parse_ipv4};
use crate::text::{
    chars_eq, chars_starts_with, find_bytes, chars_of, find_char, find_chars, find_from, lemma_find_from_bounds, lemma_split_on_nonempty, occurs_at, push_char, split_on,
};

verus! {

/// The JSON key that opens the answer section: `"Answer"`.
pub open spec fn answer_key() -> Seq<char> {
    seq!['"', 'A', 'n', 's', 'w', 'e', 'r', '"']
}

/// The JSON text that precedes a record's data: `"data":"`.
pub open spec fn data_key() -> Seq<char> {
    seq!['"', 'd', 'a', 't', 'a', '"', ':', '"']
}

/// The data strings that follow `pos`: each is the text between a `"data":"`
/// and the next `"`; the scan goes on from that closing quote.
pub open spec fn data_fields_from(json: Seq<char>, pos: int) -> Seq<Seq<char>>
    decreases json.len() + 1 - pos,
    when 0 <= pos <= json.len()
{
    match find_from(json, data_key(), pos) {
        None => Seq::<Seq<char>>::empty(),
        Some(d) => match find_from(json, seq!['"'], d + 8) {
            None => Seq::<Seq<char>>::empty(),
            Some(e) => {
                proof {
                    lemma_find_from_bounds(json, data_key(), pos);
                    lemma_find_from_bounds(json, seq!['"'], d + 8);
                }
                seq![json.subrange(d + 8, e)] + data_fields_from(json, e)
            },
        },
    }
}

/// The addresses among `fields` that parse as dotted-decimal IPv4, in order.
pub open spec fn parsed_addresses(fields: Seq<Seq<char>>) -> Seq<Ipv4Addr>
    decreases fields.len(),
{
    if fields.len() == 0 {
        Seq::<Ipv4Addr>::empty()
    } else {
        let prev = parsed_addresses(fields.drop_last());
        match spec_parse_ipv4(fields.last()) {
            Some(ip) => prev.push(ip),
            None => prev,
        }
    }
}

/// `s` with every repeat of an earlier element left out.
pub open spec fn dedup<A>(s: Seq<A>) -> Seq<A>
    decreases s.len(),
{
    if s.len() == 0 {
        Seq::<A>::empty()
    } else {
        let prev = dedup(s.drop_last());
        if prev.contains(s.last()) {
            prev
        } else {
            prev.push(s.last())
        }
    }
}

/// The A records of a DNS JSON answer: the distinct addresses among the data
/// strings after the `"Answer"` key, in order of first appearance.
pub open spec fn spec_parse_a_records(json: Seq<char>) -> Seq<Ipv4Addr> {
    match find_from(json, answer_key(), 0) {
        None => Seq::<Ipv4Addr>::empty(),
        Some(a) => dedup(parsed_addresses(data_fields_from(json, a))),
    }
}

proof fn lemma_dedup(s: Seq<Ipv4Addr>)
    ensures
        dedup(s).no_duplicates(),
        forall|x: Ipv4Addr| dedup(s).contains(x) <==> s.contains(x),
    decreases s.len(),
{
    if s.len() > 0 {
        let prev = dedup(s.drop_last());
        lemma_dedup(s.drop_last());
        assert forall|x: Ipv4Addr| dedup(s).contains(x) <==> s.contains(x) by {
            if prev.contains(x) {
                let k = choose|k: int| 0 <= k < prev.len() && prev[k] == x;
                if !prev.contains(s.last()) {
                    assert(prev.push(s.last())[k] == x);
                }
                assert(dedup(s).contains(x));
            }
            if s.contains(x) {
                let k = choose|k: int| 0 <= k < s.len() && s[k] == x;
                if k < s.len() - 1 {
                    assert(s.drop_last()[k] == x);
                    assert(s.drop_last().contains(x));
                } else {
                    if !prev.contains(x) {
                        assert(prev.push(x)[prev.len() as int] == x);
                    }
                }
            }
            if dedup(s).contains(x) {
                let k = choose|k: int| 0 <= k < dedup(s).len() && dedup(s)[k] == x;
                if prev.contains(x) {
                    assert(s.drop_last().contains(x));
                    let j = choose|j: int| 0 <= j < s.drop_last().len() && s.drop_last()[j] == x;
                    assert(s[j] == x);
                } else if k < prev.len() {
                    assert(prev[k] == x);
                } else {
                    assert(s[s.len() - 1] == x);
                }
            }
        }
        if !prev.contains(s.last()) {
            let d = prev.push(s.last());
            assert forall|i: int, j: int| 0 <= i < d.len() && 0 <= j < d.len() && i != j implies d[i]
                != d[j] by {
                if i < prev.len() && j < prev.len() {
                } else if i == prev.len() {
                    assert(prev[j] == d[j]);
                } else {
                    assert(prev[i] == d[i]);
                }
            }
        }
    }
}

proof fn lemma_parsed_addresses(fields: Seq<Seq<char>>, x: Ipv4Addr)
    ensures
        parsed_addresses(fields).contains(x) ==> exists|k: int|
            0 <= k < fields.len() && spec_parse_ipv4(#[trigger] fields[k]) == Some(x),
    decreases fields.len(),
{
    if fields.len() > 0 {
        let prev = parsed_addresses(fields.drop_last());
        lemma_parsed_addresses(fields.drop_last(), x);
        if parsed_addresses(fields).contains(x) {
            if prev.contains(x) {
                let k = choose|k: int|
                    0 <= k < fields.drop_last().len() && spec_parse_ipv4(#[trigger] fields.drop_last()[k]) == Some(x);
                assert(fields[k] == fields.drop_last()[k]);
            } else {
                assert(spec_parse_ipv4(fields[fields.len() - 1]) == Some(x));
            }
        }
    }
}

proof fn lemma_parsed_addresses_complete(fields: Seq<Seq<char>>, k: int)
    requires
        0 <= k < fields.len(),
        spec_parse_ipv4(fields[k]) is Some,
    ensures
        parsed_addresses(fields).contains(spec_parse_ipv4(fields[k])->0),
    decreases fields.len(),
{
    let x = spec_parse_ipv4(fields[k])->0;
    let prev = parsed_addresses(fields.drop_last());
    if k < fields.len() - 1 {
        assert(fields.drop_last()[k] == fields[k]);
        lemma_parsed_addresses_complete(fields.drop_last(), k);
        let j = choose|j: int| 0 <= j < prev.len() && prev[j] == x;
        match spec_parse_ipv4(fields.last()) {
            Some(ip) => {
                assert(prev.push(ip)[j] == x);
            },
            None => {},
        }
    } else {
        assert(prev.push(x)[prev.len() as int] == x);
    }
}

/// The A records read from a DNS JSON answer leave out only exact repeats:
/// every data string after the `"Answer"` key that parses as an IPv4 address
/// gives an address of the result.
pub proof fn law_a_records_complete(json: Seq<char>, a: int, k: int)
    requires
        find_from(json, answer_key(), 0) == Some(a),
        0 <= k < data_fields_from(json, a).len(),
        spec_parse_ipv4(data_fields_from(json, a)[k]) is Some,
    ensures
        spec_parse_a_records(json).contains(spec_parse_ipv4(data_fields_from(json, a)[k])->0),
{
    let fields = data_fields_from(json, a);
    lemma_parsed_addresses_complete(fields, k);
    lemma_dedup(parsed_addresses(fields));
}

/// The A records read from a DNS JSON answer hold no address twice, and each
/// is the parse of one of the data strings after the `"Answer"` key.
pub proof fn law_a_records_distinct(json: Seq<char>)
    ensures
        spec_parse_a_records(json).no_duplicates(),
        forall|x: Ipv4Addr| #[trigger] spec_parse_a_records(json).contains(x) ==> (find_from(json, answer_key(), 0) matches Some(a)
            && exists|k: int| 0 <= k < data_fields_from(json, a).len() && spec_parse_ipv4(
                #[trigger] data_fields_from(json, a)[k],
            ) == Some(x)),
{
    match find_from(json, answer_key(), 0) {
        None => {
            assert(spec_parse_a_records(json) =~= Seq::<Ipv4Addr>::empty());
        },
        Some(a) => {
            let fields = data_fields_from(json, a);
            lemma_dedup(parsed_addresses(fields));
            assert forall|x: Ipv4Addr| #[trigger] spec_parse_a_records(json).contains(x) implies exists|k: int|
                0 <= k < fields.len() && spec_parse_ipv4(#[trigger] fields[k]) == Some(x) by {
                lemma_parsed_addresses(fields, x);
            }
        },
    }
}

fn contains_addr(v: &Vec<Ipv4Addr>, ip: Ipv4Addr) -> (r: bool)
    ensures
        r == v@.contains(ip),
{
    let mut i: usize = 0;
    while i < v.len()
        invariant
            i <= v.len(),
            forall|k: int| 0 <= k < i ==> v@[k] != ip,
        decreases v.len() - i,
    {
        if v[i] == ip {
            return true;
        }
        i = i + 1;
    }
    false
}

/// Reads the A records out of a DNS JSON answer (`application/dns-json`).
pub fn parse_a_records(json: &str) -> (ips: Vec<Ipv4Addr>)
    ensures
        ips@ == spec_parse_a_records(json@),
{
    let cs = chars_of(json);
    let answer = chars_of("\"Answer\"");
    let key = chars_of("\"data\":\"");
    proof {
        reveal_strlit("\"Answer\"");
        reveal_strlit("\"data\":\"");
        assert(answer@ =~= answer_key());
        assert(key@ =~= data_key());
    }
    let a = match find_chars(cs.as_slice(), answer.as_slice(), 0) {
        None => return Vec::new(),
        Some(a) => a,
    };
    proof {
        lemma_find_from_bounds(json@, answer_key(), 0);
    }
    let mut ips: Vec<Ipv4Addr> = Vec::new();
    let mut pos = a;
    let ghost mut done: Seq<Seq<char>> = Seq::empty();
    loop
        invariant
            cs@ == json@,
            key@ == data_key(),
            a <= cs.len(),
            pos <= cs.len(),
            done + data_fields_from(json@, pos as int) == data_fields_from(json@, a as int),
            ips@ == dedup(parsed_addresses(done)),
        ensures
            done == data_fields_from(json@, a as int),
            ips@ == dedup(parsed_addresses(done)),
        decreases cs.len() - pos,
    {
        if pos >= cs.len() {
            proof {
                lemma_find_from_bounds(json@, data_key(), pos as int);
                assert(data_fields_from(json@, pos as int) =~= Seq::<Seq<char>>::empty());
                assert(done =~= done + data_fields_from(json@, pos as int));
            }
            break;
        }
        proof {
            lemma_find_from_bounds(json@, data_key(), pos as int);
        }
        let d = match find_chars(cs.as_slice(), key.as_slice(), pos) {
            None => {
                assert(done =~= done + data_fields_from(json@, pos as int));
                break;
            },
            Some(d) => d,
        };
        let start = d + 8;
        proof {
            lemma_find_from_bounds(json@, seq!['"'], start as int);
        }
        let e = match find_char(cs.as_slice(), '"', start) {
            None => {
                assert(done =~= done + data_fields_from(json@, pos as int));
                break;
            },
            Some(e) => e,
        };
        let field = json.substring_char(start, e);
        let ghost f = json@.subrange(start as int, e as int);
        assert(field@ == f);
        assert(data_fields_from(json@, pos as int) == seq![f] + data_fields_from(json@, e as int));
        let ghost old_done = done;
        proof {
            assert(done.push(f) + data_fields_from(json@, e as int) =~= done + (seq![f]
                + data_fields_from(json@, e as int)));
            assert(done.push(f).drop_last() =~= done);
            done = done.push(f);
            assert(done.last() == f);
        }
        match parse_ipv4(field) {
            Some(ip) => {
                assert(parsed_addresses(done) == parsed_addresses(old_done).push(ip));
                assert(parsed_addresses(done).drop_last() =~= parsed_addresses(old_done));
                if !contains_addr(&ips, ip) {
                    ips.push(ip);
                }
            },
            None => {
                assert(parsed_addresses(done) == parsed_addresses(old_done));
            },
        }
        pos = e;
    }
    ips
}

/// The transaction id the proxy puts in its DNS queries.
pub const DNS_TXID: u16 = 0x1234;

/// Why a DNS answer gave no address.
#[derive(Clone, Copy, Debug, PartialEq, Eq, Structural)]
pub enum DnsError {
    /// Shorter than a header, or not the answer to our query.
    BadResponse,
    /// A name runs past the end of the message.
    NameOverflow,
    /// No A record among the answers.
    NoARecord,
    /// An HTTP response without the blank line that ends its header.
    NoHeaderEnd,
    /// An HTTP body that is not UTF-8.
    NotUtf8,
}

/// Labels in wire form: each is its length (taken modulo 256, as `as u8`
/// does) followed by its bytes.
pub open spec fn encode_labels(labels: Seq<Seq<u8>>) -> Seq<u8>
    decreases labels.len(),
{
    if labels.len() == 0 {
        Seq::<u8>::empty()
    } else {
        encode_labels(labels.drop_last()) + seq![(labels.last().len() % 256) as u8] + labels.last()
    }
}

pub open spec fn query_header(txid: u16) -> Seq<u8> {
    seq![(txid / 256) as u8, (txid % 256) as u8, 1u8, 0u8, 0u8, 1u8, 0u8, 0u8, 0u8, 0u8, 0u8, 0u8]
}

/// A standard recursive query for the A record of `name`: the header (one
/// question), the name split on `.` into labels and closed by a zero byte,
/// then type A and class IN.
pub open spec fn spec_dns_query(txid: u16, name: Seq<u8>) -> Seq<u8> {
    query_header(txid) + encode_labels(split_on(name, 46u8)) + seq![0u8] + seq![0u8, 1u8, 0u8, 1u8]
}

/// Builds the UDP query for the A record of `host`.
pub fn dns_query(txid: u16, host: &str) -> (pkt: Vec<u8>)
    ensures
        pkt@ == spec_dns_query(txid, host.spec_bytes()),
{
    let bytes = host.as_bytes();
    let mut pkt: Vec<u8> = Vec::new();
    pkt.push((txid / 256) as u8);
    pkt.push((txid % 256) as u8);
    pkt.push(1);
    pkt.push(0);
    pkt.push(0);
    pkt.push(1);
    pkt.push(0);
    pkt.push(0);
    pkt.push(0);
    pkt.push(0);
    pkt.push(0);
    pkt.push(0);
    assert(pkt@ =~= query_header(txid));
    let mut cur: Vec<u8> = Vec::new();
    let mut i: usize = 0;
    while i < bytes.len()
        invariant
            i <= bytes.len(),
            pkt@ == query_header(txid) + encode_labels(split_on(bytes@.take(i as int), 46u8).drop_last()),
            cur@ == split_on(bytes@.take(i as int), 46u8).last(),
        decreases bytes.len() - i,
    {
        let ghost prev = split_on(bytes@.take(i as int), 46u8);
        proof {
            lemma_split_on_nonempty(bytes@.take(i as int), 46u8);
            assert(bytes@.take(i + 1).drop_last() =~= bytes@.take(i as int));
            assert(bytes@.take(i + 1).last() == bytes@[i as int]);
        }
        if bytes[i] == 46u8 {
            let ghost before = pkt@;
            pkt.push((cur.len() % 256) as u8);
            let mut j: usize = 0;
            while j < cur.len()
                invariant
                    j <= cur.len(),
                    pkt@ == before + seq![(cur@.len() % 256) as u8] + cur@.take(j as int),
                decreases cur.len() - j,
            {
                pkt.push(cur[j]);
                j = j + 1;
                assert(pkt@ =~= before + seq![(cur@.len() % 256) as u8] + cur@.take(j as int));
            }
            proof {
                assert(cur@.take(cur.len() as int) =~= cur@);
                let next = prev.push(Seq::<u8>::empty());
                assert(next.drop_last() =~= prev);
                assert(prev.drop_last().push(prev.last()) =~= prev);
                assert(encode_labels(prev) == encode_labels(prev.drop_last()) + seq![(prev.last().len() % 256) as u8] + prev.last());
                assert(pkt@ =~= query_header(txid) + encode_labels(prev));
            }
            cur = Vec::new();
        } else {
            cur.push(bytes[i]);
            proof {
                let next = prev.update(prev.len() - 1, prev.last().push(bytes@[i as int]));
                assert(next.drop_last() =~= prev.drop_last());
            }
        }
        i = i + 1;
    }
    proof {
        assert(bytes@.take(bytes.len() as int) =~= bytes@);
        let all = split_on(bytes@, 46u8);
        lemma_split_on_nonempty(bytes@, 46u8);
        assert(all.drop_last().push(all.last()) =~= all);
    }
    let ghost before = pkt@;
    pkt.push((cur.len() % 256) as u8);
    let mut j: usize = 0;
    while j < cur.len()
        invariant
            j <= cur.len(),
            pkt@ == before + seq![(cur@.len() % 256) as u8] + cur@.take(j as int),
        decreases cur.len() - j,
    {
        pkt.push(cur[j]);
        j = j + 1;
        assert(pkt@ =~= before + seq![(cur@.len() % 256) as u8] + cur@.take(j as int));
    }
    proof {
        assert(cur@.take(cur.len() as int) =~= cur@);
        let all = split_on(bytes@, 46u8);
        assert(encode_labels(all) == encode_labels(all.drop_last()) + seq![(all.last().len() % 256) as u8] + all.last());
    }
    pkt.push(0);
    pkt.push(0);
    pkt.push(1);
    pkt.push(0);
    pkt.push(1);
    proof {
        assert(pkt@ =~= spec_dns_query(txid, host.spec_bytes()));
    }
    pkt
}

/// The position just past the (possibly compressed) name that starts at
/// `pos`: a zero byte ends it, a byte with both top bits set is a two-byte
/// pointer that ends it, any other byte is the length of a label to skip.
pub open spec fn spec_skip_name(data: Seq<u8>, pos: int) -> Option<int>
    decreases if pos < data.len() { data.len() - pos } else { 0 },
{
    if pos < 0 || pos >= data.len() {
        None
    } else if data[pos] == 0 {
        Some(pos + 1)
    } else if data[pos] >= 0xC0 {
        Some(pos + 2)
    } else {
        spec_skip_name(data, pos + 1 + data[pos])
    }
}

/// Skips the DNS name that starts at `pos`.
pub fn skip_name(data: &[u8], start: usize) -> (r: Result<usize, DnsError>)
    requires
        data.len() <= isize::MAX,
    ensures
        match r {
            Ok(p) => spec_skip_name(data@, start as int) == Some(p as int),
            Err(e) => spec_skip_name(data@, start as int) is None && e == DnsError::NameOverflow,
        },
{
    let mut pos = start;
    loop
        invariant
            data.len() <= isize::MAX,
            spec_skip_name(data@, pos as int) == spec_skip_name(data@, start as int),
        decreases if pos < data.len() { data.len() - pos } else { 0 },
    {
        if pos >= data.len() {
            return Err(DnsError::NameOverflow);
        }
        let byte = data[pos];
        if byte == 0 {
            return Ok(pos + 1);
        }
        if byte & 0xC0 == 0xC0 {
            assert(byte >= 0xC0) by (bit_vector)
                requires
                    byte & 0xC0 == 0xC0,
            ;
            return Ok(pos + 2);
        }
        assert(byte < 0xC0) by (bit_vector)
            requires
                byte & 0xC0 != 0xC0,
        ;
        pos = pos + 1 + byte as usize;
    }
}

/// Where `data` holds the encoded `labels` at `pos`, and each label is
/// neither empty nor long enough to read as a pointer, skipping from `pos`
/// ends where skipping from just past those labels ends.
proof fn lemma_skip_encoded_labels(data: Seq<u8>, pos: int, labels: Seq<Seq<u8>>)
    requires
        0 <= pos,
        pos + encode_labels(labels).len() <= data.len(),
        data.subrange(pos, pos + encode_labels(labels).len()) == encode_labels(labels),
        forall|k: int| 0 <= k < labels.len() ==> 0 < #[trigger] labels[k].len() < 0xC0,
    ensures
        spec_skip_name(data, pos) == spec_skip_name(data, pos + encode_labels(labels).len()),
    decreases labels.len(),
{
    if labels.len() > 0 {
        let init = labels.drop_last();
        let last = labels.last();
        let e = encode_labels(init);
        let whole = encode_labels(labels);
        assert(whole == e + seq![(last.len() % 256) as u8] + last);
        assert(whole.subrange(0, e.len() as int) =~= e);
        assert(data.subrange(pos, pos + e.len()) =~= whole.subrange(0, e.len() as int));
        assert forall|k: int| 0 <= k < init.len() implies 0 < #[trigger] init[k].len() < 0xC0 by {
            assert(init[k] == labels[k]);
        }
        lemma_skip_encoded_labels(data, pos, init);
        let q = pos + e.len();
        assert(data[q] == whole[e.len() as int]);
        assert(labels[labels.len() - 1].len() < 0xC0);
        assert(data[q] == last.len());
    }
}

/// The answer parser steps over the question that `dns_query` wrote: for a
/// host whose dot-separated labels are all non-empty and shorter than 192
/// bytes, the name that starts after the 12-byte header ends right after its
/// closing zero byte.
pub proof fn law_query_name_skips(txid: u16, name: Seq<u8>)
    requires
        forall|k: int| 0 <= k < split_on(name, 46u8).len() ==> 0 < #[trigger] split_on(name, 46u8)[k].len() < 0xC0,
    ensures
        spec_skip_name(spec_dns_query(txid, name), 12) == Some(
            13 + encode_labels(split_on(name, 46u8)).len() as int,
        ),
{
    let labels = split_on(name, 46u8);
    let e = encode_labels(labels);
    let q = spec_dns_query(txid, name);
    assert(q.subrange(12, 12 + e.len() as int) =~= e);
    lemma_skip_encoded_labels(q, 12, labels);
    assert(q[12 + e.len() as int] == 0u8);
}

/// A big-endian 16-bit field.
pub open spec fn be16(hi: u8, lo: u8) -> int {
    hi * 256 + lo
}

/// Walks at most `remaining` resource records from `pos` and gives the first
/// A record whose data is four bytes long. A record header that does not fit
/// ends the walk.
pub open spec fn scan_answers(r: Seq<u8>, pos: int, remaining: int) -> Result<Ipv4Addr, DnsError>
    decreases remaining,
{
    if remaining <= 0 {
        Err(DnsError::NoARecord)
    } else {
        match spec_skip_name(r, pos) {
            None => Err(DnsError::NameOverflow),
            Some(p) => if p + 10 > r.len() {
                Err(DnsError::NoARecord)
            } else {
                let q = p + 10;
                if be16(r[p], r[p + 1]) == 1 && be16(r[p + 8], r[p + 9]) == 4 && q + 4 <= r.len() {
                    Ok(Ipv4Addr { first: r[q], second: r[q + 1], third: r[q + 2], fourth: r[q + 3] })
                } else {
                    scan_answers(r, q + be16(r[p + 8], r[p + 9]), remaining - 1)
                }
            },
        }
    }
}

/// The address a DNS answer gives for our query: the header must carry our
/// transaction id; the question name is skipped with its type and class; then
/// the answer records (as many as the header counts) are walked.
pub open spec fn spec_parse_dns_answer(r: Seq<u8>, txid: u16) -> Result<Ipv4Addr, DnsError> {
    if r.len() < 12 || be16(r[0], r[1]) != txid {
        Err(DnsError::BadResponse)
    } else {
        match spec_skip_name(r, 12) {
            None => Err(DnsError::NameOverflow),
            Some(p) => scan_answers(r, p + 4, be16(r[6], r[7])),
        }
    }
}

/// The end of the name of the resource record that starts at `s`.
pub open spec fn rr_name_end(r: Seq<u8>, s: int) -> int {
    spec_skip_name(r, s)->0
}

/// The type of the resource record that starts at `s`.
pub open spec fn rr_type(r: Seq<u8>, s: int) -> int {
    r[rr_name_end(r, s)] * 256 + r[rr_name_end(r, s) + 1]
}

/// The data length of the resource record that starts at `s`.
pub open spec fn rr_data_len(r: Seq<u8>, s: int) -> int {
    r[rr_name_end(r, s) + 8] * 256 + r[rr_name_end(r, s) + 9]
}

/// `starts` are where consecutive resource records start: each has a name
/// and a full fixed part (type, class, TTL, data length), the next starts
/// right after the data of the one before, and none before the last is an A
/// record with four data bytes, while the last is one, its data in `r`.
pub open spec fn records_up_to_first_a(r: Seq<u8>, starts: Seq<int>) -> bool {
    &&& starts.len() >= 1
    &&& forall|k: int| 0 <= k < starts.len() ==> (spec_skip_name(r, #[trigger] starts[k]) is Some
        && rr_name_end(r, starts[k]) + 10 <= r.len())
    &&& forall|k: int| 0 <= k < starts.len() - 1 ==> !(rr_type(r, #[trigger] starts[k]) == 1 && rr_data_len(r, starts[k])
        == 4) && starts[k + 1] == rr_name_end(r, starts[k]) + 10 + rr_data_len(r, starts[k])
    &&& rr_type(r, starts.last()) == 1
    &&& rr_data_len(r, starts.last()) == 4
    &&& rr_name_end(r, starts.last()) + 14 <= r.len()
}

/// The four data bytes of the A record that starts at `s`, as an address.
pub open spec fn rr_address(r: Seq<u8>, s: int) -> Ipv4Addr {
    let d = rr_name_end(r, s) + 10;
    Ipv4Addr { first: r[d], second: r[d + 1], third: r[d + 2], fourth: r[d + 3] }
}

proof fn lemma_scan_reaches_first_a(r: Seq<u8>, starts: Seq<int>, k: int, remaining: int)
    requires
        records_up_to_first_a(r, starts),
        0 <= k < starts.len(),
        remaining >= starts.len() - k,
    ensures
        scan_answers(r, starts[k], remaining) == Ok::<Ipv4Addr, DnsError>(rr_address(r, starts.last())),
    decreases starts.len() - k,
{
    let s = starts[k];
    assert(spec_skip_name(r, s) is Some && rr_name_end(r, s) + 10 <= r.len());
    let p = rr_name_end(r, s);
    assert(be16(r[p], r[p + 1]) == rr_type(r, s));
    assert(be16(r[p + 8], r[p + 9]) == rr_data_len(r, s));
    if k < starts.len() - 1 {
        assert(!(rr_type(r, starts[k]) == 1 && rr_data_len(r, starts[k]) == 4));
        assert(starts[k + 1] == p + 10 + rr_data_len(r, s));
        lemma_scan_reaches_first_a(r, starts, k + 1, remaining - 1);
    }
}

/// A reply with our transaction id gives the address of its first A record
/// with four data bytes: when the question name starts at byte 12 and is
/// followed by its type and class, and the answer records counted by the
/// header (bytes 6 and 7, big-endian) start right after it, the records up
/// to and including the first such A record being well formed, the result
/// is that record's four data bytes. In particular a reply whose one answer
/// is an A record gives that record's address.
pub proof fn law_dns_answer_first_a(r: Seq<u8>, txid: u16, starts: Seq<int>)
    requires
        r.len() >= 12,
        r[0] * 256 + r[1] == txid,
        spec_skip_name(r, 12) is Some,
        records_up_to_first_a(r, starts),
        starts[0] == spec_skip_name(r, 12)->0 + 4,
        starts.len() <= r[6] * 256 + r[7],
    ensures
        spec_parse_dns_answer(r, txid) == Ok::<Ipv4Addr, DnsError>(rr_address(r, starts.last())),
{
    lemma_scan_reaches_first_a(r, starts, 0, r[6] * 256 + r[7]);
}

/// Reads the address out of the answer to a plain DNS query.
pub fn parse_dns_answer(response: &[u8], txid: u16) -> (r: Result<Ipv4Addr, DnsError>)
    requires
        response.len() <= isize::MAX,
    ensures
        r == spec_parse_dns_answer(response@, txid),
{
    let len = response.len();
    if len < 12 || (response[0] as u16) * 256 + response[1] as u16 != txid {
        return Err(DnsError::BadResponse);
    }
    let answers: usize = (response[6] as usize) * 256 + response[7] as usize;
    let first = match skip_name(response, 12) {
        Ok(p) => p,
        Err(e) => return Err(e),
    };
    proof {
        lemma_skip_name_bound(response@, 12);
    }
    let mut pos = first + 4;
    let mut k: usize = 0;
    while k < answers
        invariant
            len == response.len(),
            len <= isize::MAX,
            len >= 12,
            answers == be16(response@[6], response@[7]),
            k <= answers,
            pos <= len + 65545,
            spec_parse_dns_answer(response@, txid) == scan_answers(response@, pos as int, answers - k),
        decreases answers - k,
    {
        let p = match skip_name(response, pos) {
            Ok(p) => p,
            Err(e) => return Err(e),
        };
        proof {
            lemma_skip_name_bound(response@, pos as int);
        }
        if p + 10 > len {
            return Err(DnsError::NoARecord);
        }
        let record_type: usize = (response[p] as usize) * 256 + response[p + 1] as usize;
        let record_len: usize = (response[p + 8] as usize) * 256 + response[p + 9] as usize;
        let q = p + 10;
        if record_type == 1 && record_len == 4 && q + 4 <= len {
            return Ok(Ipv4Addr::new(response[q], response[q + 1], response[q + 2], response[q + 3]));
        }
        pos = q + record_len;
        k = k + 1;
    }
    Err(DnsError::NoARecord)
}

proof fn lemma_skip_name_bound(data: Seq<u8>, pos: int)
    ensures
        spec_skip_name(data, pos) matches Some(p) ==> p <= data.len() + 1,
    decreases if pos < data.len() { data.len() - pos } else { 0 },
{
    if 0 <= pos < data.len() && data[pos] != 0 && data[pos] < 0xC0 {
        lemma_skip_name_bound(data, pos + 1 + data[pos]);
    }
}

/// `s` with every leading repeat of `p` removed (as `str::trim_start_matches`).
pub open spec fn trim_start_matches(s: Seq<char>, p: Seq<char>) -> Seq<char>
    decreases s.len(),
{
    if p.len() > 0 && p.is_prefix_of(s) {
        trim_start_matches(s.skip(p.len() as int), p)
    } else {
        s
    }
}

fn trim_start_matches_chars(s: &Vec<char>, p: &Vec<char>) -> (r: Vec<char>)
    ensures
        r@ == trim_start_matches(s@, p@),
{
    let mut cur: Vec<char> = s.clone();
    if p.len() == 0 {
        return cur;
    }
    loop
        invariant
            p.len() > 0,
            trim_start_matches(cur@, p@) == trim_start_matches(s@, p@),
        decreases cur.len(),
    {
        if !chars_starts_with(cur.as_slice(), p.as_slice()) {
            return cur;
        }
        let mut next: Vec<char> = Vec::new();
        let mut i = p.len();
        while i < cur.len()
            invariant
                p.len() <= i <= cur.len(),
                next@ == cur@.subrange(p.len() as int, i as int),
            decreases cur.len() - i,
        {
            next.push(cur[i]);
            i = i + 1;
            assert(next@ =~= cur@.subrange(p.len() as int, i as int));
        }
        assert(next@ =~= cur@.skip(p.len() as int));
        cur = next;
    }
}

/// Whether `s` names a DNS-over-HTTPS server (an `http://` or `https://` URL).
pub open spec fn spec_is_doh(s: Seq<char>) -> bool {
    "http://"@.is_prefix_of(s) || "https://"@.is_prefix_of(s)
}

pub fn is_doh(s: &str) -> (r: bool)
    ensures
        r == spec_is_doh(s@),
{
    let cs = chars_of(s);
    let http = chars_of("http://");
    let https = chars_of("https://");
    chars_starts_with(cs.as_slice(), http.as_slice()) || chars_starts_with(cs.as_slice(), https.as_slice())
}

/// Whether `s` names a plain DNS server: an IPv4 address or text with a `:`.
pub open spec fn spec_is_plain_dns(s: Seq<char>) -> bool {
    spec_parse_ipv4(s) is Some || s.contains(':')
}

pub fn is_plain_dns(s: &str) -> (r: bool)
    ensures
        r == spec_is_plain_dns(s@),
{
    if parse_ipv4(s).is_some() {
        return true;
    }
    let cs = chars_of(s);
    proof {
        lemma_find_from_bounds(s@, seq![':'], 0);
        if s@.contains(':') {
            let k = choose|k: int| 0 <= k < s@.len() && s@[k] == ':';
            assert(s@.subrange(k, k + 1) =~= seq![':']);
            assert(occurs_at(s@, seq![':'], k));
        }
    }
    match find_char(cs.as_slice(), ':', 0) {
        Some(i) => {
            proof {
                assert(s@.subrange(i as int, i + 1)[0] == s@[i as int]);
            }
            true
        },
        None => false,
    }
}

/// The host and path of a DNS-over-HTTPS URL: the scheme is dropped; the
/// host runs to the first `/`, and the path is the rest from that `/`, or
/// `/dns-query` when there is none.
pub open spec fn spec_doh_endpoint(server: Seq<char>) -> (Seq<char>, Seq<char>) {
    let base = trim_start_matches(trim_start_matches(server, "https://"@), "http://"@);
    match find_from(base, seq!['/'], 0) {
        Some(i) => (base.take(i), base.skip(i)),
        None => (base, "/dns-query"@),
    }
}

fn string_of_chars(s: &Vec<char>) -> (r: String)
    ensures
        r@ == s@,
{
    let mut r = String::new();
    let mut i: usize = 0;
    while i < s.len()
        invariant
            i <= s.len(),
            r@ == s@.take(i as int),
        decreases s.len() - i,
    {
        push_char(&mut r, s[i]);
        i = i + 1;
        assert(r@ =~= s@.take(i as int));
    }
    assert(s@.take(s.len() as int) =~= s@);
    r
}

/// Splits a DNS-over-HTTPS URL into its host and path.
pub fn doh_endpoint(server: &str) -> (r: (String, String))
    ensures
        r.0@ == spec_doh_endpoint(server@).0,
        r.1@ == spec_doh_endpoint(server@).1,
{
    let cs = chars_of(server);
    let https = chars_of("https://");
    let http = chars_of("http://");
    let base = trim_start_matches_chars(&trim_start_matches_chars(&cs, &https), &http);
    match find_char(base.as_slice(), '/', 0) {
        Some(i) => {
            proof {
                lemma_find_from_bounds(base@, seq!['/'], 0);
            }
            let mut host: Vec<char> = Vec::new();
            let mut path: Vec<char> = Vec::new();
            let mut k: usize = 0;
            while k < base.len()
                invariant
                    i <= base.len(),
                    k <= base.len(),
                    host@ == base@.take(if k < i { k as int } else { i as int }),
                    path@ == (if k < i { Seq::<char>::empty() } else { base@.subrange(i as int, k as int) }),
                decreases base.len() - k,
            {
                if k < i {
                    host.push(base[k]);
                } else {
                    path.push(base[k]);
                }
                k = k + 1;
                assert(host@ =~= base@.take(if k < i { k as int } else { i as int }));
                assert(path@ =~= (if k < i { Seq::<char>::empty() } else { base@.subrange(i as int, k as int) }));
            }
            proof {
                lemma_find_from_bounds(base@, seq!['/'], 0);
                assert(base@.subrange(i as int, base.len() as int) =~= base@.skip(i as int));
            }
            (string_of_chars(&host), string_of_chars(&path))
        },
        None => (string_of_chars(&base), String::from_str("/dns-query")),
    }
}

/// The query path for the A record of `host` under a DoH `path`.
pub fn doh_query_path(path: &str, host: &str) -> (r: String)
    ensures
        r@ == path@ + "?name="@ + host@ + "&type=A"@,
{
    let mut r = String::from_str(path);
    r.append("?name=");
    r.append(host);
    r.append("&type=A");
    r
}

/// The HTTP request that asks a DoH server for a JSON answer.
pub fn doh_request(host: &str, path: &str) -> (r: String)
    ensures
        r@ == "GET "@ + path@ + " HTTP/1.1\r\nHost: "@ + host@
            + "\r\nAccept: application/dns-json\r\nConnection: close\r\n\r\n"@,
{
    let mut r = String::from_str("GET ");
    r.append(path);
    r.append(" HTTP/1.1\r\nHost: ");
    r.append(host);
    r.append("\r\nAccept: application/dns-json\r\nConnection: close\r\n\r\n");
    r
}

/// The blank line that ends an HTTP header: CR LF CR LF.
pub open spec fn header_end() -> Seq<u8> {
    seq![13u8, 10u8, 13u8, 10u8]
}

/// The body of an HTTP response: what follows the first blank line.
pub open spec fn spec_http_body(buf: Seq<u8>) -> Option<Seq<u8>> {
    match find_from(buf, header_end(), 0) {
        Some(i) => Some(buf.skip(i + 4)),
        None => None,
    }
}

/// The body of an HTTP response.
pub fn http_body(buf: &[u8]) -> (r: Option<Vec<u8>>)
    ensures
        match r {
            Some(b) => spec_http_body(buf@) == Some(b@),
            None => spec_http_body(buf@) is None,
        },
{
    let mut sep: Vec<u8> = Vec::new();
    sep.push(13);
    sep.push(10);
    sep.push(13);
    sep.push(10);
    assert(sep@ =~= header_end());
    match find_bytes(buf, sep.as_slice(), 0) {
        None => None,
        Some(i) => {
            proof {
                lemma_find_from_bounds(buf@, header_end(), 0);
            }
            let mut body: Vec<u8> = Vec::new();
            let mut k = i + 4;
            while k < buf.len()
                invariant
                    i + 4 <= k <= buf.len(),
                    body@ == buf@.subrange(i + 4, k as int),
                decreases buf.len() - k,
            {
                body.push(buf[k]);
                k = k + 1;
                assert(body@ =~= buf@.subrange(i + 4, k as int));
            }
            assert(body@ =~= buf@.skip(i + 4));
            Some(body)
        },
    }
}

/// The body of a DoH response as text, as the JSON answer is read.
pub fn doh_json_text(buf: &[u8]) -> (r: Result<String, DnsError>)
    ensures
        match r {
            Ok(t) => spec_http_body(buf@) matches Some(b) && valid_utf8(b) && t@ == decode_utf8(b),
            Err(e) => (spec_http_body(buf@) is None && e == DnsError::NoHeaderEnd) || (spec_http_body(
                buf@,
            ) matches Some(b) && !valid_utf8(b) && e == DnsError::NotUtf8),
        },
{
    match http_body(buf) {
        None => Err(DnsError::NoHeaderEnd),
        Some(body) => match crate::text::utf8_string(body) {
            Some(t) => Ok(t),
            None => Err(DnsError::NotUtf8),
        },
    }
}

/// The addresses of a DoH answer; an answer without any is an error.
pub fn doh_addresses(json: &str) -> (r: Result<Vec<Ipv4Addr>, DnsError>)
    ensures
        match r {
            Ok(ips) => ips@ == spec_parse_a_records(json@) && ips@.len() > 0,
            Err(e) => spec_parse_a_records(json@).len() == 0 && e == DnsError::NoARecord,
        },
{
    let ips = parse_a_records(json);
    if ips.len() == 0 {
        Err(DnsError::NoARecord)
    } else {
        Ok(ips)
    }
}

/// The first A record of a DoH answer.
pub fn first_a_record(json: &str) -> (r: Option<Ipv4Addr>)
    ensures
        r == (if spec_parse_a_records(json@).len() > 0 {
            Some(spec_parse_a_records(json@)[0])
        } else {
            None
        }),
{
    let ips = parse_a_records(json);
    if ips.len() > 0 {
        Some(ips[0])
    } else {
        None
    }
}

/// How a configured resolver is reached.
#[derive(Clone, Copy, Debug, PartialEq, Eq, Structural)]
pub enum ServerKind {
    /// A DNS-over-HTTPS URL.
    Doh,
    /// A plain DNS server (UDP port 53).
    Plain,
    /// Neither form is recognised: DoH is tried first, then plain DNS.
    Unknown,
}

pub open spec fn spec_server_kind(s: Seq<char>) -> ServerKind {
    if spec_is_doh(s) {
        ServerKind::Doh
    } else if spec_is_plain_dns(s) {
        ServerKind::Plain
    } else {
        ServerKind::Unknown
    }
}

pub fn server_kind(s: &str) -> (k: ServerKind)
    ensures
        k == spec_server_kind(s@),
{
    if is_doh(s) {
        ServerKind::Doh
    } else if is_plain_dns(s) {
        ServerKind::Plain
    } else {
        ServerKind::Unknown
    }
}

/// The next lookup a resolver walk asks for: the server's index and the way
/// it is asked.
#[derive(Clone, Copy, Debug, PartialEq, Eq, Structural)]
pub enum ResolveQuery {
    Doh(usize),
    Plain(usize),
}

/// Why a resolver walk gave no address: no server had an A record, or the
/// error of the last lookup that failed.
#[derive(Debug)]
pub enum ResolveFailure<E> {
    NoARecord,
    Failed(E),
}

/// A walk over the configured resolvers that stops at the first that gives
/// addresses and otherwise remembers the last error.
pub struct MultiResolver<E> {
    pub kinds: Vec<ServerKind>,
    pub index: usize,
    /// For a server of unknown form, whether DoH was tried already.
    pub plain_stage: bool,
    pub last_err: Option<ResolveFailure<E>>,
}

impl<E> MultiResolver<E> {
    /// The lookup to make next; `None` once every server was asked.
    pub open spec fn spec_next(self) -> Option<ResolveQuery> {
        if self.index >= self.kinds.len() {
            None
        } else {
            match self.kinds@[self.index as int] {
                ServerKind::Doh => Some(ResolveQuery::Doh(self.index)),
                ServerKind::Plain => Some(ResolveQuery::Plain(self.index)),
                ServerKind::Unknown => if self.plain_stage {
                    Some(ResolveQuery::Plain(self.index))
                } else {
                    Some(ResolveQuery::Doh(self.index))
                },
            }
        }
    }

    /// How many lookups at most are left.
    pub open spec fn remaining(self) -> int {
        if self.index >= self.kinds.len() {
            0
        } else {
            2 * (self.kinds.len() - self.index) - (if self.plain_stage { 1int } else { 0int })
        }
    }

    /// Starts a walk over `servers`, in order.
    pub fn new(servers: &Vec<String>) -> (r: Self)
        ensures
            r.kinds@.len() == servers@.len(),
            forall|i: int| 0 <= i < servers@.len() ==> r.kinds@[i] == spec_server_kind(#[trigger] servers@[i]@),
            r.index == 0,
            !r.plain_stage,
            r.last_err is None,
    {
        let mut kinds: Vec<ServerKind> = Vec::new();
        let mut i: usize = 0;
        while i < servers.len()
            invariant
                i <= servers.len(),
                kinds@.len() == i,
                forall|k: int| 0 <= k < i ==> kinds@[k] == spec_server_kind(#[trigger] servers@[k]@),
            decreases servers.len() - i,
        {
            kinds.push(server_kind(servers[i].as_str()));
            i = i + 1;
        }
        MultiResolver { kinds, index: 0, plain_stage: false, last_err: None }
    }

    /// The lookup to make next.
    pub fn next_query(&self) -> (q: Option<ResolveQuery>)
        ensures
            q == self.spec_next(),
    {
        if self.index >= self.kinds.len() {
            None
        } else {
            match self.kinds[self.index] {
                ServerKind::Doh => Some(ResolveQuery::Doh(self.index)),
                ServerKind::Plain => Some(ResolveQuery::Plain(self.index)),
                ServerKind::Unknown => if self.plain_stage {
                    Some(ResolveQuery::Plain(self.index))
                } else {
                    Some(ResolveQuery::Doh(self.index))
                },
            }
        }
    }

    /// Takes the outcome of the DoH lookup that `next_query` asked for. Some
    /// addresses end the walk with them; otherwise a DoH server's failure is
    /// remembered and the walk moves to the next server, while a server of
    /// unknown form is asked by plain DNS next and its DoH failure forgotten.
    pub fn doh_result(&mut self, r: Result<Vec<Ipv4Addr>, E>) -> (found: Option<Vec<Ipv4Addr>>)
        requires
            old(self).spec_next() matches Some(ResolveQuery::Doh(_)),
        ensures
            final(self).kinds == old(self).kinds,
            match r {
                Ok(ips) => ips@.len() > 0 ==> found == Some(ips) && *final(self) == *old(self),
                Err(_) => true,
            },
            found is Some ==> (r matches Ok(ips) && ips@.len() > 0),
            found is None ==> final(self).remaining() < old(self).remaining(),
            found is None && old(self).kinds@[old(self).index as int] == ServerKind::Doh ==> {
                &&& final(self).index == old(self).index + 1
                &&& !final(self).plain_stage
                &&& match r {
                    Ok(_) => final(self).last_err matches Some(ResolveFailure::NoARecord),
                    Err(e) => final(self).last_err == Some(ResolveFailure::Failed(e)),
                }
            },
            found is None && old(self).kinds@[old(self).index as int] == ServerKind::Unknown ==> {
                &&& final(self).index == old(self).index
                &&& final(self).plain_stage
                &&& final(self).last_err == old(self).last_err
            },
    {
        match r {
            Ok(ips) => {
                if ips.len() > 0 {
                    return Some(ips);
                }
                if self.kinds[self.index] == ServerKind::Doh {
                    self.last_err = Some(ResolveFailure::NoARecord);
                    self.index = self.index + 1;
                    self.plain_stage = false;
                } else {
                    self.plain_stage = true;
                }
                None
            },
            Err(e) => {
                if self.kinds[self.index] == ServerKind::Doh {
                    self.last_err = Some(ResolveFailure::Failed(e));
                    self.index = self.index + 1;
                    self.plain_stage = false;
                } else {
                    self.plain_stage = true;
                }
                None
            },
        }
    }

    /// Takes the outcome of the plain DNS lookup that `next_query` asked for.
    /// An address ends the walk with it; a failure is remembered and the
    /// walk moves to the next server.
    pub fn plain_result(&mut self, r: Result<Ipv4Addr, E>) -> (found: Option<Vec<Ipv4Addr>>)
        requires
            old(self).spec_next() matches Some(ResolveQuery::Plain(_)),
        ensures
            final(self).kinds == old(self).kinds,
            match r {
                Ok(ip) => found matches Some(v) && v@ == seq![ip] && *final(self) == *old(self),
                Err(e) => found is None && final(self).index == old(self).index + 1 && !final(self).plain_stage
                    && final(self).last_err == Some(ResolveFailure::Failed(e)),
            },
            found is None ==> final(self).remaining() < old(self).remaining(),
    {
        match r {
            Ok(ip) => {
                let mut v: Vec<Ipv4Addr> = Vec::new();
                v.push(ip);
                Some(v)
            },
            Err(e) => {
                self.last_err = Some(ResolveFailure::Failed(e));
                self.index = self.index + 1;
                self.plain_stage = false;
                None
            },
        }
    }

    /// The failure once every server was asked: the last error remembered,
    /// or no A record when none was.
    pub fn finish(self) -> (f: ResolveFailure<E>)
        ensures
            match self.last_err {
                Some(e) => f == e,
                None => f matches ResolveFailure::NoARecord,
            },
    {
        match self.last_err {
            Some(e) => e,
            None => ResolveFailure::NoARecord,
        }
    }
}

/// How a plain DNS server given by name or address is reached.
#[derive(Debug, PartialEq, Eq)]
pub enum PlainServer {
    /// An IPv4 address, used as it is.
    Address(String),
    /// A name, looked up as `name:53` by the system resolver.
    Lookup(String),
}

/// `p` is how the plain DNS server named by `server` is reached: an IPv4
/// address is used as it is, anything else is looked up as `server:53`.
pub open spec fn is_plain_server_for(server: Seq<char>, p: PlainServer) -> bool {
    match p {
        PlainServer::Address(a) => spec_parse_ipv4(server) is Some && a@ == server,
        PlainServer::Lookup(n) => spec_parse_ipv4(server) is None && n@ == server + ":53"@,
    }
}

pub fn plain_server(server: &str) -> (r: PlainServer)
    ensures
        is_plain_server_for(server@, r),
{
    if parse_ipv4(server).is_some() {
        PlainServer::Address(String::from_str(server))
    } else {
        let mut n = String::from_str(server);
        n.append(":53");
        PlainServer::Lookup(n)
    }
}

} // verus!
