//! The tracker list that a torrent is added with.

use vstd::prelude::*;

verus! {

/// Byte string `a` comes before `b` and they part at position `i`.
pub open spec fn parts_at(a: Seq<u8>, b: Seq<u8>, i: int) -> bool {
    &&& 0 <= i <= a.len()
    &&& i < b.len()
    &&& forall|j: int| 0 <= j < i ==> a[j] == b[j]
    &&& i < a.len() ==> a[i] < b[i]
}

/// The order of strings: by their bytes, a prefix first.
pub open spec fn comes_before(a: Seq<char>, b: Seq<char>) -> bool {
    exists|i: int| parts_at(vstd::utf8::encode_utf8(a), vstd::utf8::encode_utf8(b), i)
}

/// Strings in order, none twice.
pub open spec fn is_ordered(s: Seq<Seq<char>>) -> bool {
    forall|i: int, j: int| 0 <= i < j < s.len() ==> comes_before(#[trigger] s[i], #[trigger] s[j])
}

/// The texts of a list of strings.
pub open spec fn texts(s: Seq<String>) -> Seq<Seq<char>> {
    s.map_values(|t: String| t@)
}

/// Trackers that every torrent gets.
pub open spec fn default_tracker_list() -> Seq<Seq<char>> {
    seq![
        "udp://tracker.opentrackr.org:1337/announce"@,
        "udp://9.rarbg.com:2810/announce"@,
        "udp://tracker.openbittorrent.com:80/announce"@,
        "http://tracker.openbittorrent.com:80/announce"@,
        "udp://opentracker.i2p.rocks:6969/announce"@,
        "udp://open.stealth.si:80/announce"@,
        "udp://tracker.torrent.eu.org:451/announce"@,
        "udp://tracker.tiny-vps.com:6969/announce"@,
        "udp://tracker.moeking.me:6969/announce"@,
        "udp://ipv4.tracker.harry.lu:80/announce"@,
    ]
}

/// Trackers that every torrent gets.
pub fn default_trackers() -> (r: Vec<String>)
    ensures
        texts(r@) == default_tracker_list(),
{
    let mut r: Vec<String> = Vec::new();
    r.push("udp://tracker.opentrackr.org:1337/announce".to_owned());
    r.push("udp://9.rarbg.com:2810/announce".to_owned());
    r.push("udp://tracker.openbittorrent.com:80/announce".to_owned());
    r.push("http://tracker.openbittorrent.com:80/announce".to_owned());
    r.push("udp://opentracker.i2p.rocks:6969/announce".to_owned());
    r.push("udp://open.stealth.si:80/announce".to_owned());
    r.push("udp://tracker.torrent.eu.org:451/announce".to_owned());
    r.push("udp://tracker.tiny-vps.com:6969/announce".to_owned());
    r.push("udp://tracker.moeking.me:6969/announce".to_owned());
    r.push("udp://ipv4.tracker.harry.lu:80/announce".to_owned());
    assert(texts(r@) =~= default_tracker_list());
    r
}

/// How two strings stand to each other.
enum Place {
    Before,
    Same,
    After,
}

proof fn lemma_texts_have_one_encoding(a: Seq<char>, b: Seq<char>)
    requires
        vstd::utf8::encode_utf8(a) == vstd::utf8::encode_utf8(b),
    ensures
        a == b,
{
    vstd::utf8::encode_utf8_decode_utf8(a);
    vstd::utf8::encode_utf8_decode_utf8(b);
}

proof fn lemma_order_is_transitive(a: Seq<char>, b: Seq<char>, c: Seq<char>)
    requires
        comes_before(a, b),
        comes_before(b, c),
    ensures
        comes_before(a, c),
{
    let (x, y, z) = (
        vstd::utf8::encode_utf8(a),
        vstd::utf8::encode_utf8(b),
        vstd::utf8::encode_utf8(c),
    );
    let i = choose|i: int| parts_at(x, y, i);
    let j = choose|j: int| parts_at(y, z, j);
    assert(parts_at(x, z, if i <= j {
        i
    } else {
        j
    }));
}

proof fn lemma_order_is_strict(a: Seq<char>, b: Seq<char>)
    requires
        comes_before(a, b),
    ensures
        a != b,
        !comes_before(b, a),
{
    let (x, y) = (vstd::utf8::encode_utf8(a), vstd::utf8::encode_utf8(b));
    let i = choose|i: int| parts_at(x, y, i);
    if comes_before(b, a) {
        let j = choose|j: int| parts_at(y, x, j);
        assert(i < j || j < i || i == j);
    }
}

/// Compares two strings by their bytes.
fn place(a: &str, b: &str) -> (r: Place)
    ensures
        match r {
            Place::Before => comes_before(a@, b@),
            Place::Same => a@ == b@,
            Place::After => comes_before(b@, a@),
        },
{
    let x = a.as_bytes();
    let y = b.as_bytes();
    let mut i: usize = 0;
    while i < x.len() && i < y.len()
        invariant
            i <= x.len(),
            i <= y.len(),
            x@ == vstd::utf8::encode_utf8(a@),
            y@ == vstd::utf8::encode_utf8(b@),
            forall|j: int| 0 <= j < i ==> x@[j] == y@[j],
        decreases x.len() - i,
    {
        if x[i] < y[i] {
            assert(parts_at(x@, y@, i as int));
            return Place::Before;
        }
        if y[i] < x[i] {
            assert(parts_at(y@, x@, i as int));
            return Place::After;
        }
        i += 1;
    }
    if i < y.len() {
        assert(parts_at(x@, y@, i as int));
        Place::Before
    } else if i < x.len() {
        assert(parts_at(y@, x@, i as int));
        Place::After
    } else {
        assert(x@ =~= y@);
        proof {
            lemma_texts_have_one_encoding(a@, b@);
        }
        Place::Same
    }
}

/// Puts a string at its place in an ordered list, unless it is there already.
fn insert_ordered(list: &mut Vec<String>, s: String)
    requires
        is_ordered(texts(old(list)@)),
    ensures
        is_ordered(texts(final(list)@)),
        forall|t: Seq<char>| #[trigger]
            texts(final(list)@).contains(t) <==> texts(old(list)@).contains(t) || t == s@,
{
    let ghost before = texts(list@);
    let mut i: usize = 0;
    while i < list.len()
        invariant_except_break
            forall|j: int| 0 <= j < i ==> comes_before(#[trigger] before[j], s@),
        invariant
            i <= list.len(),
            before == texts(list@),
            *list == *old(list),
            is_ordered(before),
        ensures
            forall|j: int| 0 <= j < i ==> comes_before(#[trigger] before[j], s@),
            forall|j: int| i <= j < before.len() ==> comes_before(s@, #[trigger] before[j]),
        decreases list.len() - i,
    {
        match place(list[i].as_str(), s.as_str()) {
            Place::Before => {
                assert(before[i as int] == list@[i as int]@);
            },
            Place::Same => {
                assert(before[i as int] == s@);
                return ;
            },
            Place::After => {
                assert(before[i as int] == list@[i as int]@);
                assert forall|j: int| i <= j < before.len() implies comes_before(
                    s@,
                    #[trigger] before[j],
                ) by {
                    if j > i {
                        assert(comes_before(before[i as int], before[j]));
                        lemma_order_is_transitive(s@, before[i as int], before[j]);
                    }
                }
                break ;
            },
        }
        i += 1;
    }
    list.insert(i, s);
    let ghost after = texts(list@);
    proof {
        assert(after =~= before.insert(i as int, s@));
        assert forall|t: Seq<char>| #[trigger] after.contains(t) <==> before.contains(t) || t == s@ by {
            if after.contains(t) {
                let k = choose|k: int| 0 <= k < after.len() && after[k] == t;
                if k < i {
                    assert(before[k] == t);
                } else if k > i {
                    assert(before[k - 1] == t);
                }
            }
            if before.contains(t) {
                let k = choose|k: int| 0 <= k < before.len() && before[k] == t;
                if k < i {
                    assert(after[k] == t);
                } else {
                    assert(after[k + 1] == t);
                }
            }
            assert(after[i as int] == s@);
        }
    }
}

/// Puts all strings of a list at their places in an ordered list.
fn insert_all(list: &mut Vec<String>, more: &Vec<String>)
    requires
        is_ordered(texts(old(list)@)),
    ensures
        is_ordered(texts(final(list)@)),
        forall|t: Seq<char>| #[trigger]
            texts(final(list)@).contains(t) <==> texts(old(list)@).contains(t) || texts(
                more@,
            ).contains(t),
{
    let ghost before = texts(list@);
    let ghost added = texts(more@);
    let mut i: usize = 0;
    while i < more.len()
        invariant
            i <= more.len(),
            added == texts(more@),
            is_ordered(texts(list@)),
            forall|t: Seq<char>| #[trigger]
                texts(list@).contains(t) <==> before.contains(t) || added.take(i as int).contains(t),
        decreases more.len() - i,
    {
        proof {
            let next = added.take(i + 1);
            let sofar = added.take(i as int);
            assert(next =~= sofar.push(more@[i as int]@));
            assert forall|t: Seq<char>| #[trigger] next.contains(t) <==> sofar.contains(t) || t
                == more@[i as int]@ by {
                if sofar.contains(t) {
                    let k = choose|k: int| 0 <= k < sofar.len() && sofar[k] == t;
                    assert(next[k] == t);
                }
                assert(next[i as int] == more@[i as int]@);
            }
        }
        insert_ordered(list, more[i].clone());
        i += 1;
    }
    assert(added.take(added.len() as int) =~= added);
}

/// The trackers to add a torrent with: the default ones, the known good ones and
/// those that came with the torrent, in order and without repetition.
pub fn merge_trackers(cached: &Vec<String>, extra: &Option<Vec<String>>) -> (r: Vec<String>)
    ensures
        is_ordered(texts(r@)),
        forall|t: Seq<char>| #[trigger]
            texts(r@).contains(t) <==> {
                ||| default_tracker_list().contains(t)
                ||| texts(cached@).contains(t)
                ||| (extra matches Some(e) && texts(e@).contains(t))
            },
{
    let mut r: Vec<String> = Vec::new();
    let defaults = default_trackers();
    insert_all(&mut r, &defaults);
    insert_all(&mut r, cached);
    match extra {
        Some(e) => {
            insert_all(&mut r, e);
        },
        None => {},
    }
    r
}

/// An ordered list is determined by its members: the merged list does not depend
/// on the order in which the trackers came, nor on repetitions.
pub proof fn ordered_lists_with_the_same_members_are_equal(a: Seq<Seq<char>>, b: Seq<Seq<char>>)
    requires
        is_ordered(a),
        is_ordered(b),
        forall|t: Seq<char>| #[trigger] a.contains(t) <==> b.contains(t),
    ensures
        a == b,
    decreases a.len(),
{
    if a.len() == 0 {
        if b.len() > 0 {
            assert(b.contains(b[0]));
            assert(a.contains(b[0]));
        }
        assert(a =~= b);
    } else {
        let x = a.last();
        assert(a.contains(x));
        assert(b.contains(x));
        let y = b.last();
        assert(b.contains(y));
        assert(a.contains(y));
        if x != y {
            let i = choose|i: int| 0 <= i < a.len() && a[i] == y;
            assert(comes_before(a[i], a[a.len() - 1]));
            let j = choose|j: int| 0 <= j < b.len() && b[j] == x;
            assert(comes_before(b[j], b[b.len() - 1]));
            lemma_order_is_strict(y, x);
        }
        let (c, d) = (a.drop_last(), b.drop_last());
        assert forall|t: Seq<char>| #[trigger] c.contains(t) <==> d.contains(t) by {
            lemma_without_last(a, t);
            lemma_without_last(b, t);
        }
        assert(is_ordered(c)) by {
            assert forall|i: int, j: int| 0 <= i < j < c.len() implies comes_before(
                #[trigger] c[i],
                #[trigger] c[j],
            ) by {
                assert(comes_before(a[i], a[j]));
            }
        }
        assert(is_ordered(d)) by {
            assert forall|i: int, j: int| 0 <= i < j < d.len() implies comes_before(
                #[trigger] d[i],
                #[trigger] d[j],
            ) by {
                assert(comes_before(b[i], b[j]));
            }
        }
        ordered_lists_with_the_same_members_are_equal(c, d);
        assert(a =~= c.push(x));
        assert(b =~= d.push(y));
    }
}

/// The last element of an ordered list is nowhere else in it.
proof fn lemma_without_last(s: Seq<Seq<char>>, t: Seq<char>)
    requires
        is_ordered(s),
        s.len() > 0,
    ensures
        s.drop_last().contains(t) <==> s.contains(t) && t != s.last(),
{
    if s.drop_last().contains(t) {
        let i = choose|i: int| 0 <= i < s.len() - 1 && s.drop_last()[i] == t;
        assert(s[i] == t);
        assert(comes_before(s[i], s[s.len() - 1]));
        lemma_order_is_strict(t, s.last());
    }
    if s.contains(t) && t != s.last() {
        let i = choose|i: int| 0 <= i < s.len() && s[i] == t;
        assert(s.drop_last()[i] == t);
    }
}

/// Two byte strings agree up to position `n`, where the first one ends or has the
/// smaller byte.
pub open spec fn agree_up_to(x: Seq<u8>, y: Seq<u8>, n: int) -> bool {
    &&& 0 <= n < y.len()
    &&& n <= x.len()
    &&& x.take(n) == y.take(n)
    &&& n == x.len() || x[n] < y[n]
}

/// A string comes before another exactly when their bytes agree up to a place where it
/// ends or has the smaller byte. No string comes before itself, and of two strings not
/// both come before the other.
pub proof fn strings_are_ordered_by_their_bytes(a: Seq<char>, b: Seq<char>)
    ensures
        comes_before(a, b) <==> exists|n: int|
            #[trigger] agree_up_to(vstd::utf8::encode_utf8(a), vstd::utf8::encode_utf8(b), n),
        comes_before(a, b) ==> a != b && !comes_before(b, a),
{
    let (x, y) = (vstd::utf8::encode_utf8(a), vstd::utf8::encode_utf8(b));
    if comes_before(a, b) {
        let i = choose|i: int| parts_at(x, y, i);
        assert(x.take(i) =~= y.take(i));
        assert(agree_up_to(x, y, i));
        lemma_order_is_strict(a, b);
    }
    if exists|n: int| #[trigger] agree_up_to(x, y, n) {
        let n = choose|n: int| #[trigger] agree_up_to(x, y, n);
        assert forall|j: int| 0 <= j < n implies x[j] == y[j] by {
            assert(x.take(n)[j] == y.take(n)[j]);
        }
        assert(parts_at(x, y, n));
    }
}

/// In an ordered list every string comes before those behind it, so that none occurs
/// twice.
pub proof fn an_ordered_list_repeats_nothing(s: Seq<Seq<char>>, i: int, j: int)
    requires
        is_ordered(s),
        0 <= i < j < s.len(),
    ensures
        comes_before(s[i], s[j]),
        s[i] != s[j],
{
    lemma_order_is_strict(s[i], s[j]);
}

/// A list of strings is seen text by text.
pub proof fn texts_are_seen_as_they_are(s: Seq<String>, i: int)
    requires
        0 <= i < s.len(),
    ensures
        texts(s).len() == s.len(),
        texts(s)[i] == s[i]@,
{
}

/// The trackers that every torrent gets.
pub proof fn which_trackers_every_torrent_gets(t: Seq<char>)
    ensures
        default_tracker_list().contains(t) <==> {
            ||| t == "udp://tracker.opentrackr.org:1337/announce"@
            ||| t == "udp://9.rarbg.com:2810/announce"@
            ||| t == "udp://tracker.openbittorrent.com:80/announce"@
            ||| t == "http://tracker.openbittorrent.com:80/announce"@
            ||| t == "udp://opentracker.i2p.rocks:6969/announce"@
            ||| t == "udp://open.stealth.si:80/announce"@
            ||| t == "udp://tracker.torrent.eu.org:451/announce"@
            ||| t == "udp://tracker.tiny-vps.com:6969/announce"@
            ||| t == "udp://tracker.moeking.me:6969/announce"@
            ||| t == "udp://ipv4.tracker.harry.lu:80/announce"@
        },
{
    let l = default_tracker_list();
    assert(l.len() == 10);
    assert(l.contains(l[0]) && l.contains(l[1]) && l.contains(l[2]) && l.contains(l[3])
        && l.contains(l[4]) && l.contains(l[5]) && l.contains(l[6]) && l.contains(l[7])
        && l.contains(l[8]) && l.contains(l[9]));
}

} // verus!
