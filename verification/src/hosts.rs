//! The text of a hosts file: `IP name [name ...]` per line, `#` comments.

use vstd::prelude::*;
use vstd::hash_map::StringHashMap;
use crate::ipv4::{Ipv4Addr, parse_ipv4, spec_parse_ipv4};
use crate::text::{
    first_piece, lemma_split_on_nonempty, lowercase, split_chars, split_on, split_whitespace, to_lowercase,
    trim, trim_str, words, chars_of, lemma_split_on_no_sep, is_ws, trim_start, trim_end,
};

verus! {

/// The entries of one line added to `m`: the line up to its first `#`,
/// trimmed, split into words; when the first word is an IPv4 address every
/// further word, lowercased, maps to it (a later line wins).
pub open spec fn add_hosts_line(m: Map<Seq<char>, Ipv4Addr>, line: Seq<char>) -> Map<Seq<char>, Ipv4Addr> {
    let ws = words(trim(split_on(line, '#')[0]));
    if ws.len() == 0 {
        m
    } else {
        match spec_parse_ipv4(ws[0]) {
            None => m,
            Some(ip) => add_names(m, ws.skip(1), ip),
        }
    }
}

pub open spec fn add_names(m: Map<Seq<char>, Ipv4Addr>, names: Seq<Seq<char>>, ip: Ipv4Addr) -> Map<
    Seq<char>,
    Ipv4Addr,
>
    decreases names.len(),
{
    if names.len() == 0 {
        m
    } else {
        add_names(m, names.drop_last(), ip).insert(lowercase(names.last()), ip)
    }
}

pub open spec fn hosts_from_lines(ls: Seq<Seq<char>>) -> Map<Seq<char>, Ipv4Addr>
    decreases ls.len(),
{
    if ls.len() == 0 {
        Map::empty()
    } else {
        add_hosts_line(hosts_from_lines(ls.drop_last()), ls.last())
    }
}

/// The map a hosts file gives: its lines are the pieces between newlines (a
/// carriage return before a newline is whitespace and trimmed away).
pub open spec fn spec_parse_hosts(data: Seq<char>) -> Map<Seq<char>, Ipv4Addr> {
    hosts_from_lines(split_on(data, '\n'))
}

proof fn lemma_words_drop_leading_ws(s: Seq<char>)
    requires
        s.len() > 0,
        is_ws(s[0]),
    ensures
        words(s) == words(s.drop_first()),
    decreases s.len(),
{
    let t = s.drop_first();
    if s.len() == 1 {
        assert(s.drop_last() =~= Seq::<char>::empty());
        assert(t =~= Seq::<char>::empty());
        assert(is_ws(s.last()));
    } else {
        let d = s.drop_last();
        assert(d[0] == s[0]);
        lemma_words_drop_leading_ws(d);
        assert(d.drop_first() =~= t.drop_last());
        assert(t.last() == s.last());
        if s.len() >= 3 {
            assert(t[t.len() - 2] == s[s.len() - 2]);
        } else {
            assert(s[s.len() - 2] == s[0]);
        }
    }
}

proof fn lemma_words_trim(s: Seq<char>)
    ensures
        words(trim_start(s)) == words(s),
        words(trim_end(s)) == words(s),
        words(trim(s)) == words(s),
    decreases s.len(),
{
    if s.len() > 0 {
        if is_ws(s[0]) {
            lemma_words_drop_leading_ws(s);
            lemma_words_trim(s.drop_first());
        }
        if is_ws(s.last()) {
            lemma_words_trim(s.drop_last());
        }
    }
    lemma_words_trim_end(trim_start(s));
}

proof fn lemma_words_trim_end(s: Seq<char>)
    ensures
        words(trim_end(s)) == words(s),
    decreases s.len(),
{
    if s.len() > 0 && is_ws(s.last()) {
        lemma_words_trim_end(s.drop_last());
    }
}

proof fn lemma_add_names(m: Map<Seq<char>, Ipv4Addr>, names: Seq<Seq<char>>, ip: Ipv4Addr, key: Seq<char>)
    ensures
        add_names(m, names, ip).contains_key(key) <==> (m.contains_key(key) || exists|i: int|
            0 <= i < names.len() && lowercase(#[trigger] names[i]) == key),
        (exists|i: int| 0 <= i < names.len() && lowercase(#[trigger] names[i]) == key) ==> add_names(
            m,
            names,
            ip,
        )[key] == ip,
    decreases names.len(),
{
    if names.len() > 0 {
        let init = names.drop_last();
        lemma_add_names(m, init, ip, key);
        if exists|i: int| 0 <= i < init.len() && lowercase(#[trigger] init[i]) == key {
            let i = choose|i: int| 0 <= i < init.len() && lowercase(#[trigger] init[i]) == key;
            assert(names[i] == init[i]);
        }
        if exists|i: int| 0 <= i < names.len() && lowercase(#[trigger] names[i]) == key {
            let i = choose|i: int| 0 <= i < names.len() && lowercase(#[trigger] names[i]) == key;
            if i < names.len() - 1 {
                assert(init[i] == names[i]);
            }
        }
    }
}

/// One line of a hosts file, with no comment, whose whitespace-separated
/// words (tabs and any other Unicode whitespace between them) are an IPv4
/// address and then names, gives a map from each name, lowercased, to that
/// address, and holds nothing else.
pub proof fn law_hosts_line(line: Seq<char>, key: Seq<char>)
    requires
        !line.contains('#'),
        !line.contains('\n'),
        words(line).len() >= 1,
        spec_parse_ipv4(words(line)[0]) is Some,
    ensures
        spec_parse_hosts(line).contains_key(key) <==> exists|i: int|
            1 <= i < words(line).len() && lowercase(#[trigger] words(line)[i]) == key,
        spec_parse_hosts(line).contains_key(key) ==> spec_parse_hosts(line)[key] == spec_parse_ipv4(
            words(line)[0],
        )->0,
{
    lemma_split_on_no_sep(line, '\n');
    lemma_split_on_no_sep(line, '#');
    lemma_words_trim(line);
    let ws = words(line);
    let ip = spec_parse_ipv4(ws[0])->0;
    let ls = split_on(line, '\n');
    assert(ls.drop_last() =~= Seq::<Seq<char>>::empty());
    assert(ls.last() == line);
    assert(hosts_from_lines(ls.drop_last()) == Map::<Seq<char>, Ipv4Addr>::empty());
    assert(hosts_from_lines(ls) == add_hosts_line(Map::empty(), line));
    assert(add_hosts_line(Map::empty(), line) == add_names(Map::empty(), ws.skip(1), ip));
    lemma_add_names(Map::empty(), ws.skip(1), ip, key);
    if exists|i: int| 1 <= i < ws.len() && lowercase(#[trigger] ws[i]) == key {
        let i = choose|i: int| 1 <= i < ws.len() && lowercase(#[trigger] ws[i]) == key;
        assert(ws.skip(1)[i - 1] == ws[i]);
    }
    if exists|i: int| 0 <= i < ws.skip(1).len() && lowercase(#[trigger] ws.skip(1)[i]) == key {
        let i = choose|i: int| 0 <= i < ws.skip(1).len() && lowercase(#[trigger] ws.skip(1)[i]) == key;
        assert(ws[i + 1] == ws.skip(1)[i]);
    }
}

/// Reads the text of a hosts file into a map from lowercase name to address.
pub fn parse_hosts(data: &str) -> (m: StringHashMap<Ipv4Addr>)
    ensures
        m@ == spec_parse_hosts(data@),
{
    let mut m: StringHashMap<Ipv4Addr> = StringHashMap::new();
    let cs = chars_of(data);
    let pieces = split_chars(&cs, '\n');
    let ghost ls = split_on(data@, '\n');
    let mut i: usize = 0;
    while i < pieces.len()
        invariant
            i <= pieces.len(),
            ls == split_on(data@, '\n'),
            pieces.len() == ls.len(),
            forall|k: int| 0 <= k < pieces.len() ==> #[trigger] pieces[k]@ == ls[k],
            m@ == hosts_from_lines(ls.take(i as int)),
        decreases pieces.len() - i,
    {
        assert(ls.take(i + 1).drop_last() =~= ls.take(i as int));
        assert(ls.take(i + 1).last() == ls[i as int]);
        let line = string_of(&pieces[i]);
        let body = trim_str(first_piece(line.as_str(), '#'));
        let ws = split_whitespace(body);
        if ws.len() > 0 {
            match parse_ipv4(ws[0]) {
                Some(ip) => {
                    let ghost before = m@;
                    let mut j: usize = 1;
                    while j < ws.len()
                        invariant
                            1 <= j <= ws.len(),
                            ws.len() == words(body@).len(),
                            forall|k: int| 0 <= k < ws.len() ==> #[trigger] ws[k]@ == words(body@)[k],
                            m@ == add_names(before, words(body@).skip(1).take(j - 1), ip),
                        decreases ws.len() - j,
                    {
                        let name = to_lowercase(ws[j]);
                        let ghost names = words(body@).skip(1);
                        assert(names.take(j as int).drop_last() =~= names.take(j - 1));
                        assert(names.take(j as int).last() == ws[j as int]@);
                        m.insert(name, ip);
                        j = j + 1;
                    }
                    assert(words(body@).skip(1).take(ws.len() - 1) =~= words(body@).skip(1));
                },
                None => {},
            }
        }
        i = i + 1;
    }
    assert(ls.take(pieces.len() as int) =~= ls);
    m
}

fn string_of(s: &Vec<char>) -> (r: String)
    ensures
        r@ == s@,
{
    let mut r = String::new();
    let mut i: usize = 0;
    while i < s.len()
        invariant
            i <= s.len(),
            r@ == s@.take(i as int),
        decreases s.len() - i,
    {
        crate::text::push_char(&mut r, s[i]);
        i = i + 1;
        assert(r@ =~= s@.take(i as int));
    }
    assert(s@.take(s.len() as int) =~= s@);
    r
}

} // verus!
