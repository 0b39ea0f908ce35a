//! The client's cookie jar and the reading of `Set-Cookie` header values.
//!
//! The jar is an ordered list of `(name, value)` pairs: adding a name that is
//! present replaces its value in place, adding a new name appends it, and the
//! `Cookie` request header lists all pairs in order as `name=value`, joined by
//! `"; "`.

use vstd::prelude::*;

use crate::text::{chars_of, push_char, same_text, string_from_range, trim, trim_bounds};

verus! {

/// A cookie as plain text: `(name, value)`.
pub type CookieText = (Seq<char>, Seq<char>);

/// Index of the first entry named `name`, or -1.
pub open spec fn name_index(entries: Seq<CookieText>, name: Seq<char>) -> int
    decreases entries.len(),
{
    if entries.len() == 0 {
        -1
    } else if entries[0].0 == name {
        0
    } else {
        let k = name_index(entries.drop_first(), name);
        if k < 0 {
            -1
        } else {
            k + 1
        }
    }
}

/// The jar after adding `name=value`.
pub open spec fn jar_add(entries: Seq<CookieText>, name: Seq<char>, value: Seq<char>) -> Seq<
    CookieText,
> {
    let k = name_index(entries, name);
    if k >= 0 {
        entries.update(k, (name, value))
    } else {
        entries.push((name, value))
    }
}

/// The jar after adding each pair of `pairs` in order.
pub open spec fn jar_add_all(entries: Seq<CookieText>, pairs: Seq<CookieText>) -> Seq<
    CookieText,
>
    decreases pairs.len(),
{
    if pairs.len() == 0 {
        entries
    } else {
        let before = jar_add_all(entries, pairs.drop_last());
        jar_add(before, pairs.last().0, pairs.last().1)
    }
}

/// The value stored under `name`, if any.
pub open spec fn jar_get(entries: Seq<CookieText>, name: Seq<char>) -> Option<Seq<char>> {
    let k = name_index(entries, name);
    if k >= 0 {
        Some(entries[k].1)
    } else {
        None
    }
}

/// No two entries share a name.
pub open spec fn names_distinct(entries: Seq<CookieText>) -> bool {
    forall|i: int, j: int|
        0 <= i < entries.len() && 0 <= j < entries.len() && i != j ==> #[trigger] entries[i].0
            != #[trigger] entries[j].0
}

/// `name=value`.
pub open spec fn cookie_text(c: CookieText) -> Seq<char> {
    c.0 + seq!['='] + c.1
}

/// The `Cookie` header: every pair as `name=value`, joined by `"; "`.
pub open spec fn header_text(entries: Seq<CookieText>) -> Seq<char>
    decreases entries.len(),
{
    if entries.len() == 0 {
        Seq::empty()
    } else if entries.len() == 1 {
        cookie_text(entries[0])
    } else {
        header_text(entries.drop_last()) + seq![';', ' '] + cookie_text(entries.last())
    }
}

pub open spec fn pair_text(p: (String, String)) -> CookieText {
    (p.0@, p.1@)
}

/// The text of a list of `String` pairs.
pub open spec fn pairs_text(v: Seq<(String, String)>) -> Seq<CookieText> {
    v.map_values(|p: (String, String)| pair_text(p))
}

/// Cookie jar of one upstream session.
pub struct CookieJar {
    entries: Vec<(String, String)>,
}

impl View for CookieJar {
    type V = Seq<CookieText>;

    closed spec fn view(&self) -> Seq<CookieText> {
        pairs_text(self.entries@)
    }
}

proof fn lemma_name_index_found(entries: Seq<CookieText>, name: Seq<char>, k: int)
    requires
        0 <= k < entries.len(),
        entries[k].0 == name,
        forall|j: int| 0 <= j < k ==> entries[j].0 != name,
    ensures
        name_index(entries, name) == k,
    decreases k,
{
    if k > 0 {
        let t = entries.drop_first();
        assert forall|j: int| 0 <= j < k - 1 implies t[j].0 != name by {
            assert(t[j] == entries[j + 1]);
        }
        assert(entries[0].0 != name);
        lemma_name_index_found(t, name, k - 1);
    }
}

proof fn lemma_name_index_absent(entries: Seq<CookieText>, name: Seq<char>)
    requires
        forall|j: int| 0 <= j < entries.len() ==> entries[j].0 != name,
    ensures
        name_index(entries, name) == -1,
    decreases entries.len(),
{
    if entries.len() > 0 {
        let t = entries.drop_first();
        assert forall|j: int| 0 <= j < t.len() implies t[j].0 != name by {
            assert(t[j] == entries[j + 1]);
        }
        assert(entries[0].0 != name);
        lemma_name_index_absent(t, name);
    }
}

/// `name_index` finds the first entry with the name, and only it.
pub proof fn lemma_name_index(entries: Seq<CookieText>, name: Seq<char>)
    ensures
        -1 <= name_index(entries, name) < entries.len(),
        name_index(entries, name) >= 0 ==> entries[name_index(entries, name)].0 == name,
        forall|j: int|
            0 <= j < entries.len() && (name_index(entries, name) < 0 || j < name_index(
                entries,
                name,
            )) ==> #[trigger] entries[j].0 != name,
    decreases entries.len(),
{
    if entries.len() > 0 {
        let t = entries.drop_first();
        lemma_name_index(t, name);
        assert forall|j: int|
            0 <= j < entries.len() && (name_index(entries, name) < 0 || j < name_index(
                entries,
                name,
            )) implies #[trigger] entries[j].0 != name by {
            if j > 0 {
                assert(entries[j] == t[j - 1]);
            }
        }
    }
}

impl CookieJar {
    /// An empty jar.
    pub fn new() -> (jar: Self)
        ensures
            jar@ == Seq::<CookieText>::empty(),
    {
        let jar = CookieJar { entries: Vec::new() };
        assert(jar@ =~= Seq::<CookieText>::empty());
        jar
    }

    /// Sets cookie `name` to `value`: replaced in place when present,
    /// appended otherwise.
    pub fn add(&mut self, name: &str, value: &str)
        ensures
            final(self)@ == jar_add(old(self)@, name@, value@),
    {
        let ghost old_view = self@;
        let mut i: usize = 0;
        let mut found = false;
        while i < self.entries.len()
            invariant_except_break
                i <= self.entries.len(),
                self@ == old_view,
                self@ == pairs_text(self.entries@),
                forall|j: int| 0 <= j < i ==> old_view[j].0 != name@,
                !found,
            ensures
                i <= self.entries.len(),
                self@ == old_view,
                self@ == pairs_text(self.entries@),
                forall|j: int| 0 <= j < i ==> old_view[j].0 != name@,
                found ==> i < self.entries.len() && old_view[i as int].0 == name@,
                !found ==> i == self.entries.len(),
            decreases self.entries.len() - i,
        {
            if same_text(self.entries[i].0.as_str(), name) {
                assert(old_view[i as int] == pair_text(self.entries@[i as int]));
                found = true;
                break;
            }
            i = i + 1;
        }
        if found {
            proof {
                lemma_name_index_found(old_view, name@, i as int);
            }
            let v = value.to_owned();
            let n = name.to_owned();
            let ghost before = self.entries@;
            self.entries.set(i, (n, v));
            assert(self.entries@ == before.update(i as int, (n, v)));
            assert(self@ =~= jar_add(old_view, name@, value@));
        } else {
            proof {
                lemma_name_index_absent(old_view, name@);
            }
            self.entries.push((name.to_owned(), value.to_owned()));
            assert(self@ =~= jar_add(old_view, name@, value@));
        }
    }

    /// Adds each pair of `pairs`, in order.
    pub fn add_all(&mut self, pairs: &Vec<(String, String)>)
        ensures
            final(self)@ == jar_add_all(old(self)@, pairs_text(pairs@)),
    {
        let ghost start = self@;
        let mut i: usize = 0;
        while i < pairs.len()
            invariant
                i <= pairs.len(),
                self@ == jar_add_all(start, pairs_text(pairs@).take(i as int)),
            decreases pairs.len() - i,
        {
            let ghost ps = pairs_text(pairs@).take(i + 1);
            assert(ps.drop_last() =~= pairs_text(pairs@).take(i as int));
            assert(ps.last() == pair_text(pairs@[i as int]));
            self.add(pairs[i].0.as_str(), pairs[i].1.as_str());
            i = i + 1;
        }
        assert(pairs_text(pairs@).take(pairs.len() as int) =~= pairs_text(pairs@));
    }

    /// The `Cookie` request header for the jar.
    pub fn header_value(&self) -> (r: String)
        ensures
            r@ == header_text(self@),
    {
        let mut out = String::new();
        let mut i: usize = 0;
        while i < self.entries.len()
            invariant
                i <= self.entries.len(),
                out@ == header_text(self@.take(i as int)),
                self@ == pairs_text(self.entries@),
            decreases self.entries.len() - i,
        {
            let ghost before = out@;
            if i > 0 {
                push_char(&mut out, ';');
                push_char(&mut out, ' ');
            }
            out.append(self.entries[i].0.as_str());
            push_char(&mut out, '=');
            out.append(self.entries[i].1.as_str());
            proof {
                let t = self@.take(i + 1);
                assert(t.drop_last() =~= self@.take(i as int));
                assert(t.last() == pair_text(self.entries@[i as int]));
                assert(out@ =~= header_text(t));
            }
            i = i + 1;
        }
        assert(self@.take(self.entries.len() as int) =~= self@);
        out
    }

    /// Records the session id that a `Set-Cookie` value carries, if any, as
    /// cookie `JSESSIONID`.
    pub fn capture_session_id(&mut self, set_cookie: &str)
        ensures
            final(self)@ == match session_id(set_cookie@) {
                Some(id) => jar_add(old(self)@, "JSESSIONID"@, id),
                None => old(self)@,
            },
    {
        match session_id_from_set_cookie(set_cookie) {
            Some(id) => {
                self.add("JSESSIONID", id.as_str());
            },
            None => {},
        }
    }

    /// Records every `name=value` pair that a `Set-Cookie` value carries.
    pub fn capture_cookies(&mut self, set_cookie: &str)
        ensures
            final(self)@ == jar_add_all(old(self)@, set_cookie_pairs(set_cookie@)),
    {
        let pairs = cookie_pairs(set_cookie);
        self.add_all(&pairs);
    }
}

// ---------------------------------------------------------------------------
// Laws of the jar
// ---------------------------------------------------------------------------

/// Read after write: after adding `name=value`, the jar holds `value` under
/// `name`, and every other name keeps its value.
pub proof fn law_get_after_add(
    entries: Seq<CookieText>,
    name: Seq<char>,
    value: Seq<char>,
    other: Seq<char>,
)
    ensures
        jar_get(jar_add(entries, name, value), name) == Some(value),
        other != name ==> jar_get(jar_add(entries, name, value), other) == jar_get(
            entries,
            other,
        ),
{
    let after = jar_add(entries, name, value);
    lemma_name_index(entries, name);
    lemma_name_index(entries, other);
    lemma_name_index(after, name);
    lemma_name_index(after, other);
    let k = name_index(entries, name);
    let ka = name_index(after, name);
    if k >= 0 {
        assert(after[k].0 == name);
        if ka >= 0 && ka < k {
            assert(after[ka] == entries[ka]);
        }
        assert(ka == k);
    } else {
        assert(after[entries.len() as int].0 == name);
        if ka >= 0 && ka < entries.len() {
            assert(after[ka] == entries[ka]);
        }
        assert(ka == entries.len());
    }
    if other != name {
        let ko = name_index(entries, other);
        let kao = name_index(after, other);
        if ko >= 0 {
            assert(after[ko].0 == other);
            if kao >= 0 && kao < ko {
                assert(after[kao] == entries[kao] || kao == k);
            }
            assert(kao == ko);
            assert(after[ko] == entries[ko]);
        } else {
            if kao >= 0 {
                if kao < entries.len() {
                    assert(after[kao] == entries[kao] || kao == k);
                }
                assert(false);
            }
        }
    }
}

/// Adding a name that is present changes no length; adding a new name adds
/// one entry. Distinct names stay distinct.
pub proof fn law_add_keeps_names_distinct(
    entries: Seq<CookieText>,
    name: Seq<char>,
    value: Seq<char>,
)
    requires
        names_distinct(entries),
    ensures
        names_distinct(jar_add(entries, name, value)),
        jar_add(entries, name, value).len() == entries.len() + (if jar_get(entries, name) is Some {
            0int
        } else {
            1int
        }),
{
    lemma_name_index(entries, name);
    let after = jar_add(entries, name, value);
    let k = name_index(entries, name);
    assert forall|i: int, j: int|
        0 <= i < after.len() && 0 <= j < after.len() && i != j implies #[trigger] after[i].0
        != #[trigger] after[j].0 by {
        if k >= 0 {
            if i != k && j != k {
                assert(after[i] == entries[i] && after[j] == entries[j]);
            } else if i == k {
                assert(after[j] == entries[j]);
                assert(entries[k].0 == name);
            } else {
                assert(after[i] == entries[i]);
                assert(entries[k].0 == name);
            }
        } else {
            if i < entries.len() && j < entries.len() {
                assert(after[i] == entries[i] && after[j] == entries[j]);
            } else if i < entries.len() {
                assert(after[i] == entries[i]);
            } else {
                assert(after[j] == entries[j]);
            }
        }
    }
}

/// Adding the same pair twice is the same as adding it once.
pub proof fn law_add_idempotent(entries: Seq<CookieText>, name: Seq<char>, value: Seq<char>)
    ensures
        jar_add(jar_add(entries, name, value), name, value) == jar_add(entries, name, value),
{
    let after = jar_add(entries, name, value);
    lemma_name_index(entries, name);
    lemma_name_index(after, name);
    let k = name_index(entries, name);
    let ka = name_index(after, name);
    if k >= 0 {
        if ka >= 0 && ka < k {
            assert(after[ka] == entries[ka]);
        }
        assert(after[k].0 == name);
        assert(ka == k);
    } else {
        if ka >= 0 && ka < entries.len() {
            assert(after[ka] == entries[ka]);
        }
        assert(after[entries.len() as int].0 == name);
        assert(ka == entries.len());
    }
    assert(after.update(ka, (name, value)) =~= after);
}

// ---------------------------------------------------------------------------
// Set-Cookie parsing
// ---------------------------------------------------------------------------

/// Index of the first `c` in `s`, or -1.
pub open spec fn index_of_char(s: Seq<char>, c: char) -> int
    decreases s.len(),
{
    if s.len() == 0 {
        -1
    } else if s[0] == c {
        0
    } else {
        let k = index_of_char(s.drop_first(), c);
        if k < 0 {
            -1
        } else {
            k + 1
        }
    }
}

/// `p` occurs in `s` at `i`.
pub open spec fn occurs_at(s: Seq<char>, p: Seq<char>, i: int) -> bool {
    0 <= i && i + p.len() <= s.len() && s.subrange(i, i + p.len()) == p
}

/// Index of the first occurrence of `p` in `s` at or after `i`, or -1.
pub open spec fn find_from(s: Seq<char>, p: Seq<char>, i: nat) -> int
    decreases s.len() - i,
{
    if i + p.len() > s.len() {
        -1
    } else if occurs_at(s, p, i as int) {
        i as int
    } else if i >= s.len() {
        -1
    } else {
        find_from(s, p, i + 1)
    }
}

/// `s` up to (not including) its first `c`, as `s.split(c).next()` gives.
pub open spec fn before_char(s: Seq<char>, c: char) -> Seq<char> {
    let k = index_of_char(s, c);
    if k < 0 {
        s
    } else {
        s.take(k)
    }
}

/// The session id in a `Set-Cookie` value: the text after the first
/// `JSESSIONID=`, up to the next `JSESSIONID=` and then up to the first `;`
/// (`s.split("JSESSIONID=").nth(1)` then `.split(';').next()`); `None` when
/// there is no `JSESSIONID=` or the id is empty.
pub open spec fn session_id(s: Seq<char>) -> Option<Seq<char>> {
    let p = "JSESSIONID="@;
    let i = find_from(s, p, 0);
    if i < 0 {
        None
    } else {
        let rest = s.skip(i + p.len());
        let j = find_from(rest, p, 0);
        let piece = if j < 0 {
            rest
        } else {
            rest.take(j)
        };
        let id = before_char(piece, ';');
        if id.len() == 0 {
            None
        } else {
            Some(id)
        }
    }
}

/// `s.split(c)`: the pieces between occurrences of `c`.
pub open spec fn split_on(s: Seq<char>, c: char) -> Seq<Seq<char>>
    decreases s.len(),
{
    let k = index_of_char(s, c);
    if k < 0 {
        seq![s]
    } else {
        proof {
            lemma_index_of_char_bound(s, c);
        }
        seq![s.take(k)] + split_on(s.skip(k + 1), c)
    }
}

/// The cookie a `name=value` piece carries: split at its first `=`, both
/// sides trimmed, kept only when both are non-empty.
pub open spec fn piece_cookie(part: Seq<char>) -> Option<CookieText> {
    let eq = index_of_char(part, '=');
    if eq < 0 {
        None
    } else {
        let name = trim(part.take(eq));
        let value = trim(part.skip(eq + 1));
        if name.len() > 0 && value.len() > 0 {
            Some((name, value))
        } else {
            None
        }
    }
}

/// The cookies carried by a list of pieces, in order.
pub open spec fn pieces_cookies(parts: Seq<Seq<char>>) -> Seq<CookieText>
    decreases parts.len(),
{
    if parts.len() == 0 {
        Seq::empty()
    } else {
        let tail = pieces_cookies(parts.drop_first());
        match piece_cookie(parts[0]) {
            Some(c) => seq![c] + tail,
            None => tail,
        }
    }
}

/// Every `name=value` pair of a `Set-Cookie` value split at `;`.
pub open spec fn set_cookie_pairs(s: Seq<char>) -> Seq<CookieText> {
    pieces_cookies(split_on(s, ';'))
}

/// `index_of_char` is -1 or an index of the sequence.
pub proof fn lemma_index_of_char_bound(s: Seq<char>, c: char)
    ensures
        -1 <= index_of_char(s, c) < s.len(),
    decreases s.len(),
{
    if s.len() > 0 {
        lemma_index_of_char_bound(s.drop_first(), c);
    }
}

proof fn lemma_index_of_char(s: Seq<char>, c: char, k: int)
    requires
        0 <= k <= s.len(),
        forall|j: int| 0 <= j < k ==> s[j] != c,
        k == s.len() || s[k] == c,
    ensures
        index_of_char(s, c) == (if k == s.len() {
            -1
        } else {
            k
        }),
    decreases k,
{
    if k > 0 {
        let t = s.drop_first();
        assert forall|j: int| 0 <= j < k - 1 implies t[j] != c by {
            assert(t[j] == s[j + 1]);
        }
        assert(s[0] != c);
        lemma_index_of_char(t, c, k - 1);
    }
}

proof fn lemma_find_from(s: Seq<char>, p: Seq<char>, i: nat)
    requires
        p.len() > 0,
    ensures
        find_from(s, p, i) == -1 || (i <= find_from(s, p, i) && occurs_at(
            s,
            p,
            find_from(s, p, i),
        )),
    decreases s.len() - i,
{
    if i + p.len() <= s.len() && !occurs_at(s, p, i as int) && i < s.len() {
        lemma_find_from(s, p, i + 1);
    }
}

/// Session-id round trip: a `Set-Cookie` value `JSESSIONID=<id>` followed by
/// nothing or by `;...` gives back the whole id, whatever its length, when
/// the id is not empty and holds neither `;` nor `JSESSIONID=`.
pub proof fn law_session_id_round_trip(id: Seq<char>, rest: Seq<char>)
    requires
        id.len() > 0,
        forall|k: int| 0 <= k < id.len() ==> id[k] != ';',
        forall|k: int| !occurs_at(id, "JSESSIONID="@, k),
        rest.len() == 0 || rest[0] == ';',
    ensures
        session_id("JSESSIONID="@ + id + rest) == Some(id),
{
    reveal_strlit("JSESSIONID=");
    let p = "JSESSIONID="@;
    let s = p + id + rest;
    assert(s.subrange(0, p.len() as int) =~= p);
    assert(find_from(s, p, 0) == 0);
    let r = s.skip(p.len() as int);
    assert(r =~= id + rest);
    lemma_find_from(r, p, 0);
    let j = find_from(r, p, 0);
    if j >= 0 {
        if j < id.len() {
            if j + p.len() <= id.len() {
                assert(r.subrange(j, j + p.len()) =~= id.subrange(j, j + p.len()));
                assert(occurs_at(id, p, j));
            } else {
                let m = id.len() - j;
                assert(r.subrange(j, j + p.len())[m] == r[id.len() as int]);
                assert(r[id.len() as int] == rest[0]);
                assert(p[m] != ';');
            }
        }
    }
    let piece = if j < 0 {
        r
    } else {
        r.take(j)
    };
    assert forall|k: int| 0 <= k < id.len() implies piece[k] != ';' by {
        assert(piece[k] == id[k]);
    }
    if piece.len() > id.len() {
        assert(piece[id.len() as int] == rest[0]);
    }
    lemma_index_of_char(piece, ';', id.len() as int);
    assert(before_char(piece, ';') =~= id);
}

/// Cookie round trip: a `Set-Cookie` value `name=value`, with both sides
/// non-empty and already trimmed, no `;` anywhere and no `=` in the name,
/// gives back exactly that one pair, whatever the value's length.
pub proof fn law_cookie_pair_round_trip(name: Seq<char>, value: Seq<char>)
    requires
        name.len() > 0,
        value.len() > 0,
        trim(name) == name,
        trim(value) == value,
        forall|k: int| 0 <= k < name.len() ==> name[k] != ';' && name[k] != '=',
        forall|k: int| 0 <= k < value.len() ==> value[k] != ';',
    ensures
        set_cookie_pairs(name + seq!['='] + value) == seq![(name, value)],
{
    let s = name + seq!['='] + value;
    assert forall|k: int| 0 <= k < s.len() implies s[k] != ';' by {
        if k < name.len() {
            assert(s[k] == name[k]);
        } else if k > name.len() {
            assert(s[k] == value[k - name.len() - 1]);
        }
    }
    lemma_index_of_char(s, ';', s.len() as int);
    assert(split_on(s, ';') == seq![s]);
    assert forall|k: int| 0 <= k < name.len() implies s[k] != '=' by {
        assert(s[k] == name[k]);
    }
    lemma_index_of_char(s, '=', name.len() as int);
    assert(s.take(name.len() as int) =~= name);
    assert(s.skip(name.len() + 1int) =~= value);
    assert(piece_cookie(s) == Some((name, value)));
    assert(seq![s].drop_first() =~= Seq::<Seq<char>>::empty());
    assert(pieces_cookies(Seq::<Seq<char>>::empty()) == Seq::<CookieText>::empty());
    assert(seq![(name, value)] + Seq::<CookieText>::empty() =~= seq![(name, value)]);
}

/// First index `k >= from` with `v[k] == c`.
fn find_char(v: &Vec<char>, from: usize, c: char) -> (r: Option<usize>)
    requires
        from <= v.len(),
    ensures
        index_of_char(v@.skip(from as int), c) == match r {
            Some(k) => k - from,
            None => -1,
        },
        r matches Some(k) ==> from <= k < v.len(),
{
    let mut i = from;
    while i < v.len()
        invariant
            from <= i <= v.len(),
            forall|j: int| from <= j < i ==> v@[j] != c,
        decreases v.len() - i,
    {
        if v[i] == c {
            proof {
                let s = v@.skip(from as int);
                assert forall|j: int| 0 <= j < i - from implies s[j] != c by {
                    assert(s[j] == v@[from + j]);
                }
                lemma_index_of_char(s, c, i - from);
            }
            return Some(i);
        }
        i = i + 1;
    }
    proof {
        let s = v@.skip(from as int);
        assert forall|j: int| 0 <= j < s.len() implies s[j] != c by {
            assert(s[j] == v@[from + j]);
        }
        lemma_index_of_char(s, c, s.len() as int);
    }
    None
}

/// Whether `p` occurs in `s` at `i`.
fn occurs_at_exec(s: &Vec<char>, p: &Vec<char>, i: usize) -> (r: bool)
    ensures
        r == occurs_at(s@, p@, i as int),
{
    if p.len() > s.len() || i > s.len() - p.len() {
        return false;
    }
    let mut k: usize = 0;
    while k < p.len()
        invariant
            k <= p.len(),
            i + p.len() <= s.len(),
            forall|j: int| 0 <= j < k ==> s@[i + j] == p@[j],
        decreases p.len() - k,
    {
        if s[i + k] != p[k] {
            assert(s@.subrange(i as int, i + p.len())[k as int] != p@[k as int]);
            return false;
        }
        k = k + 1;
    }
    assert(s@.subrange(i as int, i + p.len()) =~= p@);
    true
}

/// First occurrence of `p` in `s`.
fn find_text(s: &Vec<char>, p: &Vec<char>) -> (r: Option<usize>)
    ensures
        find_from(s@, p@, 0) == match r {
            Some(k) => k as int,
            None => -1,
        },
        r matches Some(k) ==> k + p.len() <= s.len(),
{
    if p.len() > s.len() {
        return None;
    }
    if p.len() == 0 {
        assert(s@.subrange(0, 0) =~= p@);
        return Some(0);
    }
    let mut i: usize = 0;
    while i <= s.len() - p.len()
        invariant
            1 <= p.len() <= s.len(),
            i <= s.len() - p.len() + 1,
            find_from(s@, p@, 0) == find_from(s@, p@, i as nat),
        decreases s.len() - p.len() + 1 - i,
    {
        if occurs_at_exec(s, p, i) {
            return Some(i);
        }
        i = i + 1;
    }
    None
}

/// The session id carried by a `Set-Cookie` value; see [`session_id`].
pub fn session_id_from_set_cookie(set_cookie: &str) -> (r: Option<String>)
    ensures
        match (r, session_id(set_cookie@)) {
            (Some(a), Some(b)) => a@ == b,
            (None, None) => true,
            _ => false,
        },
{
    let s = chars_of(set_cookie);
    let p = chars_of("JSESSIONID=");
    match find_text(&s, &p) {
        None => None,
        Some(i) => {
            let start = i + p.len();
            let rest = sub_chars(&s, start, s.len());
            assert(rest@ =~= s@.skip(start as int));
            let end = match find_text(&rest, &p) {
                Some(j) => j,
                None => rest.len(),
            };
            let piece = sub_chars(&rest, 0, end);
            let ghost piece_spec = if find_from(rest@, p@, 0) < 0 {
                rest@
            } else {
                rest@.take(find_from(rest@, p@, 0))
            };
            assert(piece@ =~= piece_spec);
            let stop = match find_char(&piece, 0, ';') {
                Some(k) => k,
                None => piece.len(),
            };
            assert(piece@.skip(0) =~= piece@);
            let ghost id_spec = before_char(piece@, ';');
            assert(piece@.subrange(0, stop as int) =~= id_spec);
            if stop == 0 {
                None
            } else {
                Some(string_from_range(&piece, 0, stop))
            }
        },
    }
}

/// `v[from..to]` as a new vector.
fn sub_chars(v: &Vec<char>, from: usize, to: usize) -> (r: Vec<char>)
    requires
        from <= to <= v.len(),
    ensures
        r@ == v@.subrange(from as int, to as int),
{
    let mut r: Vec<char> = Vec::new();
    let mut i = from;
    while i < to
        invariant
            from <= i <= to <= v.len(),
            r@ == v@.subrange(from as int, i as int),
        decreases to - i,
    {
        r.push(v[i]);
        i = i + 1;
        assert(r@ =~= v@.subrange(from as int, i as int));
    }
    r
}

proof fn lemma_pieces_cookies_concat(a: Seq<Seq<char>>, b: Seq<Seq<char>>)
    ensures
        pieces_cookies(a + b) == pieces_cookies(a) + pieces_cookies(b),
    decreases a.len(),
{
    if a.len() == 0 {
        assert(a + b =~= b);
        assert(Seq::<CookieText>::empty() + pieces_cookies(b) =~= pieces_cookies(b));
    } else {
        assert((a + b).drop_first() =~= a.drop_first() + b);
        assert((a + b)[0] == a[0]);
        lemma_pieces_cookies_concat(a.drop_first(), b);
        match piece_cookie(a[0]) {
            Some(c) => {
                assert(seq![c] + (pieces_cookies(a.drop_first()) + pieces_cookies(b)) =~= (seq![c]
                    + pieces_cookies(a.drop_first())) + pieces_cookies(b));
            },
            None => {},
        }
    }
}

/// The cookie of the piece `v[from..to]`, as [`piece_cookie`] reads it.
fn piece_cookie_exec(v: &Vec<char>, from: usize, to: usize) -> (r: Option<(String, String)>)
    requires
        from <= to <= v.len(),
    ensures
        match (r, piece_cookie(v@.subrange(from as int, to as int))) {
            (Some(a), Some(b)) => pair_text(a) == b,
            (None, None) => true,
            _ => false,
        },
{
    let piece = sub_chars(v, from, to);
    assert(piece@.skip(0) =~= piece@);
    match find_char(&piece, 0, '=') {
        None => None,
        Some(eq) => {
            let (nlo, nhi) = trim_bounds(&piece, 0, eq);
            let (vlo, vhi) = trim_bounds(&piece, eq + 1, piece.len());
            assert(piece@.subrange(0, eq as int) =~= piece@.take(eq as int));
            assert(piece@.subrange(eq + 1, piece.len() as int) =~= piece@.skip(eq + 1));
            if nlo < nhi && vlo < vhi {
                let n = string_from_range(&piece, nlo, nhi);
                let val = string_from_range(&piece, vlo, vhi);
                Some((n, val))
            } else {
                None
            }
        },
    }
}

/// Every `name=value` pair of a `Set-Cookie` value; see [`set_cookie_pairs`].
pub fn cookie_pairs(set_cookie: &str) -> (r: Vec<(String, String)>)
    ensures
        pairs_text(r@) == set_cookie_pairs(set_cookie@),
{
    let s = chars_of(set_cookie);
    let mut out: Vec<(String, String)> = Vec::new();
    let ghost mut done: Seq<Seq<char>> = Seq::empty();
    let mut start: usize = 0;
    assert(s@.skip(0) =~= s@);
    assert(Seq::<Seq<char>>::empty() + split_on(s@, ';') =~= split_on(s@, ';'));
    loop
        invariant_except_break
            start <= s.len(),
            s@ == set_cookie@,
            split_on(s@, ';') == done + split_on(s@.skip(start as int), ';'),
            pairs_text(out@) == pieces_cookies(done),
        ensures
            pairs_text(out@) == pieces_cookies(split_on(s@, ';')),
        decreases s.len() - start,
    {
        let ghost rest = s@.skip(start as int);
        let found = find_char(&s, start, ';');
        let end = match found {
            Some(k) => k,
            None => s.len(),
        };
        let ghost piece = s@.subrange(start as int, end as int);
        let c = piece_cookie_exec(&s, start, end);
        proof {
            let k = index_of_char(rest, ';');
            if k < 0 {
                assert(piece =~= rest);
                assert(split_on(rest, ';') == seq![rest]);
            } else {
                assert(piece =~= rest.take(k));
                assert(rest.skip(k + 1) =~= s@.skip(end + 1));
            }
            lemma_pieces_cookies_concat(done, seq![piece]);
            assert(seq![piece].drop_first() =~= Seq::<Seq<char>>::empty());
            assert(pieces_cookies(Seq::<Seq<char>>::empty()) == Seq::<CookieText>::empty());
        }
        let ghost out_before = out@;
        match c {
            Some(p) => {
                out.push(p);
                assert(out@ == out_before.push(p));
                assert(pairs_text(out@) =~= pairs_text(out_before).push(pair_text(p)));
            },
            None => {},
        }
        proof {
            assert(pairs_text(out@) =~= pieces_cookies(done) + pieces_cookies(seq![piece]));
            done = done + seq![piece];
        }
        match found {
            None => {
                proof {
                    assert(split_on(s@, ';') =~= done);
                }
                break;
            },
            Some(k) => {
                proof {
                    assert(split_on(rest, ';') == seq![piece] + split_on(s@.skip(k + 1), ';'));
                    assert(split_on(s@, ';') =~= done + split_on(s@.skip(k + 1), ';'));
                }
                start = k + 1;
            },
        }
    }
    out
}

} // verus!
