//! The `Message` and `UserInfo` value types.
//!
//! Both are built once from their required field and then extended by
//! chained builder calls. Optional fields are absent until set. The
//! metadata mapping is kept as a vector of key/value entries with
//! pairwise-distinct keys; its meaning as a mapping is given by
//! [`map_of`], under which insertion order does not matter.

use vstd::prelude::*;
use vstd::string::StringExecFns;

verus! {

/// The keys of `es` are pairwise distinct.
pub open spec fn unique_keys(es: Seq<(Seq<char>, Seq<char>)>) -> bool {
    forall|i: int, j: int| 0 <= i < j < es.len() ==> es[i].0 != es[j].0
}

/// The mapping that a sequence of entries denotes: a later entry for a
/// key overrides an earlier one.
pub open spec fn map_of(es: Seq<(Seq<char>, Seq<char>)>) -> Map<Seq<char>, Seq<char>>
    decreases es.len(),
{
    if es.len() == 0 {
        Map::empty()
    } else {
        map_of(es.drop_last()).insert(es.last().0, es.last().1)
    }
}

/// The value for `k` among `es`, taking the latest entry for `k`.
pub open spec fn lookup_key(es: Seq<(Seq<char>, Seq<char>)>, k: Seq<char>) -> Option<Seq<char>>
    decreases es.len(),
{
    if es.len() == 0 {
        None
    } else if es.last().0 == k {
        Some(es.last().1)
    } else {
        lookup_key(es.drop_last(), k)
    }
}

/// `lookup_key` agrees with `map_of`: it answers `Some(v)` exactly when
/// the denoted mapping has `k`, and then `v` is the mapped value.
pub proof fn lemma_lookup_map_of(es: Seq<(Seq<char>, Seq<char>)>, k: Seq<char>)
    ensures
        match lookup_key(es, k) {
            Some(v) => map_of(es).contains_key(k) && map_of(es)[k] == v,
            None => !map_of(es).contains_key(k),
        },
    decreases es.len(),
{
    if es.len() > 0 && es.last().0 != k {
        lemma_lookup_map_of(es.drop_last(), k);
    }
}

/// A key that occurs among the entries is found by `lookup_key`.
pub proof fn lemma_lookup_occurs(es: Seq<(Seq<char>, Seq<char>)>, i: int)
    requires
        0 <= i < es.len(),
    ensures
        lookup_key(es, es[i].0) is Some,
    decreases es.len(),
{
    if es.last().0 != es[i].0 {
        lemma_lookup_occurs(es.drop_last(), i);
    }
}

/// A key that `lookup_key` finds occurs among the entries.
pub proof fn lemma_lookup_some_occurs(es: Seq<(Seq<char>, Seq<char>)>, k: Seq<char>)
    requires
        lookup_key(es, k) is Some,
    ensures
        exists|i: int| 0 <= i < es.len() && es[i].0 == k,
    decreases es.len(),
{
    if es.last().0 == k {
        assert(es[es.len() - 1].0 == k);
    } else {
        lemma_lookup_some_occurs(es.drop_last(), k);
        let i = choose|i: int| 0 <= i < es.drop_last().len() && es.drop_last()[i].0 == k;
        assert(es[i].0 == k);
    }
}

/// The deep view of a vector of entries: each string becomes its
/// character sequence.
pub open spec fn entries_view(es: Seq<(String, String)>) -> Seq<(Seq<char>, Seq<char>)> {
    es.map_values(|p: (String, String)| (p.0@, p.1@))
}

/// The entry sequence of an optional metadata field, the empty sequence
/// where the field is absent.
pub open spec fn entries_or_empty(m: Option<Seq<(Seq<char>, Seq<char>)>>) -> Seq<
    (Seq<char>, Seq<char>),
> {
    match m {
        Some(es) => es,
        None => Seq::empty(),
    }
}

/// `es` with the value for `k` set to `v`: the earliest entry for `k`
/// is replaced, or a new entry is appended where none exists.
pub open spec fn insert_entry(
    es: Seq<(Seq<char>, Seq<char>)>,
    k: Seq<char>,
    v: Seq<char>,
) -> Seq<(Seq<char>, Seq<char>)>
    decreases es.len(),
{
    if es.len() == 0 {
        seq![(k, v)]
    } else if es.first().0 == k {
        seq![(k, v)] + es.drop_first()
    } else {
        seq![es.first()] + insert_entry(es.drop_first(), k, v)
    }
}

/// Where `i` is the earliest entry for `k`, inserting `k` replaces
/// that entry in place.
pub proof fn lemma_insert_entry_replaces(
    es: Seq<(Seq<char>, Seq<char>)>,
    k: Seq<char>,
    v: Seq<char>,
    i: int,
)
    requires
        0 <= i < es.len(),
        es[i].0 == k,
        forall|j: int| 0 <= j < i ==> es[j].0 != k,
    ensures
        insert_entry(es, k, v) == es.update(i, (k, v)),
    decreases es.len(),
{
    if i == 0 {
        assert(insert_entry(es, k, v) =~= es.update(0, (k, v)));
    } else {
        assert(es[0].0 != k);
        lemma_insert_entry_replaces(es.drop_first(), k, v, i - 1);
        assert(seq![es.first()] + es.drop_first().update(i - 1, (k, v)) =~= es.update(i, (k, v)));
    }
}

/// Where no entry for `k` exists, inserting `k` appends a new entry.
pub proof fn lemma_insert_entry_appends(es: Seq<(Seq<char>, Seq<char>)>, k: Seq<char>, v: Seq<char>)
    requires
        forall|j: int| 0 <= j < es.len() ==> es[j].0 != k,
    ensures
        insert_entry(es, k, v) == es.push((k, v)),
    decreases es.len(),
{
    if es.len() == 0 {
        assert(insert_entry(es, k, v) =~= es.push((k, v)));
    } else {
        assert(es[0].0 != k);
        lemma_insert_entry_appends(es.drop_first(), k, v);
        assert(seq![es.first()] + es.drop_first().push((k, v)) =~= es.push((k, v)));
    }
}

/// Replacing the entry whose key is `k` by `(k, v)` sets `k` to `v` in
/// the denoted mapping.
pub proof fn lemma_map_of_update(es: Seq<(Seq<char>, Seq<char>)>, i: int, k: Seq<char>, v: Seq<char>)
    requires
        unique_keys(es),
        0 <= i < es.len(),
        es[i].0 == k,
    ensures
        map_of(es.update(i, (k, v))) == map_of(es).insert(k, v),
    decreases es.len(),
{
    if i == es.len() - 1 {
        assert(es.update(i, (k, v)).drop_last() =~= es.drop_last());
        assert(map_of(es.update(i, (k, v))) =~= map_of(es).insert(k, v));
    } else {
        assert(es.update(i, (k, v)).drop_last() =~= es.drop_last().update(i, (k, v)));
        lemma_map_of_update(es.drop_last(), i, k, v);
        assert(es.last().0 != k);
        assert(map_of(es.update(i, (k, v))) =~= map_of(es).insert(k, v));
    }
}

/// The view of an optional string field.
pub open spec fn opt_str_view(o: Option<String>) -> Option<Seq<char>> {
    match o {
        Some(s) => Some(s@),
        None => None,
    }
}

/// The view of an optional metadata vector.
pub open spec fn opt_entries_view(o: Option<Vec<(String, String)>>) -> Option<
    Seq<(Seq<char>, Seq<char>)>,
> {
    match o {
        Some(es) => Some(entries_view(es@)),
        None => None,
    }
}

/// The fields of a [`Message`], with text as character sequences.
pub ghost struct MessageView {
    pub content: Seq<char>,
    pub timestamp: Option<Seq<char>>,
    pub metadata: Option<Seq<(Seq<char>, Seq<char>)>>,
}

impl MessageView {
    /// A present metadata field has pairwise-distinct keys.
    pub open spec fn wf(self) -> bool {
        match self.metadata {
            Some(es) => unique_keys(es),
            None => true,
        }
    }
}

/// The fields of a [`UserInfo`], with text as character sequences.
pub ghost struct UserInfoView {
    pub name: Seq<char>,
    pub email: Option<Seq<char>>,
    pub metadata: Option<Seq<(Seq<char>, Seq<char>)>>,
}

impl UserInfoView {
    /// A present metadata field has pairwise-distinct keys.
    pub open spec fn wf(self) -> bool {
        match self.metadata {
            Some(es) => unique_keys(es),
            None => true,
        }
    }
}

/// A message: free-text content, an optional timestamp, and an optional
/// metadata mapping.
///
/// The timestamp is an opaque, caller-supplied time representation;
/// this type neither parses nor validates it.
#[derive(Debug, Clone)]
pub struct Message {
    pub content: String,
    pub timestamp: Option<String>,
    pub metadata: Option<Vec<(String, String)>>,
}

impl View for Message {
    type V = MessageView;

    open spec fn view(&self) -> MessageView {
        MessageView {
            content: self.content@,
            timestamp: opt_str_view(self.timestamp),
            metadata: opt_entries_view(self.metadata),
        }
    }
}

impl Message {
    /// Construct a message with both optional fields absent.
    pub fn new(content: &str) -> (r: Self)
        ensures
            r@.content == content@,
            r@.timestamp is None,
            r@.metadata is None,
            r@.wf(),
    {
        Message { content: String::from_str(content), timestamp: None, metadata: None }
    }

    /// Set the timestamp; a later call overrides an earlier one.
    pub fn with_timestamp(self, timestamp: String) -> (r: Self)
        ensures
            r@.content == self@.content,
            r@.timestamp == Some(timestamp@),
            r@.metadata == self@.metadata,
            self@.wf() ==> r@.wf(),
    {
        Message { timestamp: Some(timestamp), ..self }
    }

    /// Insert or overwrite one metadata entry, creating the mapping on
    /// first use. Once present, the mapping never becomes absent again.
    pub fn with_metadata(self, key: String, value: String) -> (r: Self)
        ensures
            r@.content == self@.content,
            r@.timestamp == self@.timestamp,
            r@.metadata == Some(insert_entry(entries_or_empty(self@.metadata), key@, value@)),
            self@.wf() ==> r@.wf(),
            self@.wf() ==> map_of(entries_or_empty(r@.metadata)) == map_of(
                entries_or_empty(self@.metadata),
            ).insert(key@, value@),
    {
        let ghost sv = self@;
        let Message { content, timestamp, metadata } = self;
        let mut es: Vec<(String, String)> = match metadata {
            Some(v) => v,
            None => Vec::new(),
        };
        let ghost es0 = entries_view(es@);
        proof {
            assert(entries_view(Seq::<(String, String)>::empty()) =~= Seq::empty());
            assert(es0 == entries_or_empty(sv.metadata));
        }
        let n = es.len();
        let mut i: usize = 0;
        while i < n
            invariant
                i <= n,
                n == es@.len(),
                entries_view(es@) == es0,
                sv == self@,
                content@ == sv.content,
                (match timestamp {
                    Some(t) => Some(t@),
                    None => None,
                }) == sv.timestamp,
                es0 == entries_or_empty(sv.metadata),
                sv.wf() ==> unique_keys(es0),
                forall|j: int| 0 <= j < i ==> es0[j].0 != key@,
            decreases n - i,
        {
            let found = es[i].0 == key;
            if found {
                es.remove(i);
                es.insert(i, (key, value));
                proof {
                    lemma_insert_entry_replaces(es0, key@, value@, i as int);
                    assert(entries_view(es@) =~= es0.update(i as int, (key@, value@)));
                    if unique_keys(es0) {
                        let up = es0.update(i as int, (key@, value@));
                        assert(forall|l: int| 0 <= l < up.len() ==> up[l].0 == es0[l].0);
                        assert(unique_keys(entries_view(es@)));
                        lemma_map_of_update(es0, i as int, key@, value@);
                    }
                }
                return Message { content, timestamp, metadata: Some(es) };
            }
            i = i + 1;
        }
        es.push((key, value));
        proof {
            lemma_insert_entry_appends(es0, key@, value@);
            assert(entries_view(es@) =~= es0.push((key@, value@)));
            if unique_keys(es0) {
                assert(unique_keys(entries_view(es@)));
                assert(es0.push((key@, value@)).drop_last() =~= es0);
            }
        }
        Message { content, timestamp, metadata: Some(es) }
    }
}

/// A user record: a name, an optional email, and an optional metadata
/// mapping.
///
/// No builder call populates the metadata field; a present metadata
/// mapping can only arrive through deserialization. This mirrors the
/// asymmetry with [`Message`], which does offer a metadata builder.
#[derive(Debug, Clone)]
pub struct UserInfo {
    pub name: String,
    pub email: Option<String>,
    pub metadata: Option<Vec<(String, String)>>,
}

impl View for UserInfo {
    type V = UserInfoView;

    open spec fn view(&self) -> UserInfoView {
        UserInfoView {
            name: self.name@,
            email: opt_str_view(self.email),
            metadata: opt_entries_view(self.metadata),
        }
    }
}

impl UserInfo {
    /// Construct a user record with both optional fields absent.
    pub fn new(name: &str) -> (r: Self)
        ensures
            r@.name == name@,
            r@.email is None,
            r@.metadata is None,
            r@.wf(),
    {
        UserInfo { name: String::from_str(name), email: None, metadata: None }
    }

    /// Set the email; a later call overrides an earlier one.
    pub fn with_email(self, email: String) -> (r: Self)
        ensures
            r@.name == self@.name,
            r@.email == Some(email@),
            r@.metadata == self@.metadata,
            self@.wf() ==> r@.wf(),
    {
        UserInfo { email: Some(email), ..self }
    }
}

/// Decide whether the keys of an entry vector are pairwise distinct.
pub fn keys_unique(es: &Vec<(String, String)>) -> (r: bool)
    ensures
        r == unique_keys(entries_view(es@)),
{
    let ghost ev = entries_view(es@);
    let n = es.len();
    let mut i: usize = 0;
    while i < n
        invariant
            i <= n,
            n == es@.len(),
            ev == entries_view(es@),
            forall|a: int, b: int| 0 <= a < i && a < b < n ==> ev[a].0 != ev[b].0,
        decreases n - i,
    {
        let mut j: usize = i + 1;
        while j < n
            invariant
                i < j <= n,
                i < n,
                n == es@.len(),
                ev == entries_view(es@),
                forall|b: int| i < b < j ==> ev[i as int].0 != ev[b].0,
            decreases n - j,
        {
            let same = es[i].0 == es[j].0;
            if same {
                proof {
                    assert(ev[i as int].0 == ev[j as int].0);
                    assert(!unique_keys(ev));
                }
                return false;
            }
            j = j + 1;
        }
        i = i + 1;
    }
    true
}

/// The latest value stored for `key`, if any.
fn lookup_entry(es: &Vec<(String, String)>, key: &String) -> (r: Option<String>)
    ensures
        match r {
            Some(v) => lookup_key(entries_view(es@), key@) == Some(v@),
            None => lookup_key(entries_view(es@), key@) is None,
        },
{
    let ghost ev = entries_view(es@);
    let mut i: usize = es.len();
    proof {
        assert(ev.take(es@.len() as int) =~= ev);
    }
    while i > 0
        invariant
            i <= es@.len(),
            ev == entries_view(es@),
            lookup_key(ev, key@) == lookup_key(ev.take(i as int), key@),
        decreases i,
    {
        i = i - 1;
        let e = &es[i];
        let hit = e.0 == *key;
        if hit {
            proof {
                assert(ev.take(i + 1).last() == ev[i as int]);
            }
            return Some(e.1.clone());
        }
        proof {
            assert(ev.take(i + 1).drop_last() =~= ev.take(i as int));
        }
    }
    proof {
        assert(ev.take(0) =~= Seq::<(Seq<char>, Seq<char>)>::empty());
    }
    None
}

/// Decide whether two entry vectors denote the same mapping.
fn entry_maps_equal(x: &Vec<(String, String)>, y: &Vec<(String, String)>) -> (r: bool)
    ensures
        r == (map_of(entries_view(x@)) == map_of(entries_view(y@))),
{
    let ghost xv = entries_view(x@);
    let ghost yv = entries_view(y@);
    let mut i: usize = 0;
    let nx = x.len();
    while i < nx
        invariant
            i <= nx,
            nx == x@.len(),
            xv == entries_view(x@),
            yv == entries_view(y@),
            forall|j: int| 0 <= j < i ==> lookup_key(yv, xv[j].0) == lookup_key(xv, xv[j].0),
        decreases nx - i,
    {
        let e = &x[i];
        let lx = lookup_entry(x, &e.0);
        let ly = lookup_entry(y, &e.0);
        proof {
            lemma_lookup_occurs(xv, i as int);
        }
        match (lx, ly) {
            (Some(a), Some(b)) => {
                let same = a == b;
                if !same {
                    proof {
                        lemma_lookup_map_of(xv, xv[i as int].0);
                        lemma_lookup_map_of(yv, xv[i as int].0);
                    }
                    return false;
                }
            },
            (Some(_), None) => {
                proof {
                    lemma_lookup_map_of(xv, xv[i as int].0);
                    lemma_lookup_map_of(yv, xv[i as int].0);
                }
                return false;
            },
            _ => {
                proof {
                    assert(false);
                }
                return false;
            },
        }
        i = i + 1;
    }
    let mut h: usize = 0;
    let ny = y.len();
    while h < ny
        invariant
            h <= ny,
            ny == y@.len(),
            xv == entries_view(x@),
            yv == entries_view(y@),
            forall|j: int| 0 <= j < xv.len() ==> lookup_key(yv, xv[j].0) == lookup_key(xv, xv[j].0),
            forall|j: int| 0 <= j < h ==> lookup_key(xv, yv[j].0) is Some,
        decreases ny - h,
    {
        let e = &y[h];
        let lx = lookup_entry(x, &e.0);
        proof {
            lemma_lookup_occurs(yv, h as int);
        }
        match lx {
            Some(_) => {},
            None => {
                proof {
                    lemma_lookup_map_of(xv, yv[h as int].0);
                    lemma_lookup_map_of(yv, yv[h as int].0);
                }
                return false;
            },
        }
        h = h + 1;
    }
    proof {
        assert forall|q: Seq<char>| #[trigger] map_of(xv).dom().contains(q) implies map_of(
            yv,
        ).dom().contains(q) && map_of(xv)[q] == map_of(yv)[q] by {
            lemma_lookup_map_of(xv, q);
            lemma_lookup_some_occurs(xv, q);
            let j = choose|j: int| 0 <= j < xv.len() && xv[j].0 == q;
            assert(lookup_key(yv, q) == lookup_key(xv, q));
            lemma_lookup_map_of(yv, q);
        }
        assert forall|q: Seq<char>| #[trigger] map_of(yv).dom().contains(q) implies map_of(
            xv,
        ).dom().contains(q) by {
            lemma_lookup_map_of(yv, q);
            lemma_lookup_some_occurs(yv, q);
            let j = choose|j: int| 0 <= j < yv.len() && yv[j].0 == q;
            assert(lookup_key(xv, q) is Some);
            lemma_lookup_map_of(xv, q);
        }
        assert(map_of(xv).dom() =~= map_of(yv).dom());
        assert(map_of(xv) =~= map_of(yv));
    }
    true
}

/// What `==` on two [`Message`] values means: fields equal, with the
/// metadata compared as mappings, so that insertion order does not
/// matter and an absent mapping never equals a present one.
pub open spec fn message_eq(a: MessageView, b: MessageView) -> bool {
    &&& a.content == b.content
    &&& a.timestamp == b.timestamp
    &&& match (a.metadata, b.metadata) {
        (None, None) => true,
        (Some(xs), Some(ys)) => map_of(xs) == map_of(ys),
        _ => false,
    }
}

/// What `==` on two [`UserInfo`] values means, field for field as in
/// [`message_eq`].
pub open spec fn user_info_eq(a: UserInfoView, b: UserInfoView) -> bool {
    &&& a.name == b.name
    &&& a.email == b.email
    &&& match (a.metadata, b.metadata) {
        (None, None) => true,
        (Some(xs), Some(ys)) => map_of(xs) == map_of(ys),
        _ => false,
    }
}

/// Structural equality of two optional strings.
fn opt_string_equal(a: &Option<String>, b: &Option<String>) -> (r: bool)
    ensures
        r == (opt_str_view(*a) == opt_str_view(*b)),
{
    match (a, b) {
        (Some(s), Some(t)) => *s == *t,
        (None, None) => true,
        _ => false,
    }
}

/// Equality of two optional metadata vectors, as mappings.
fn opt_entries_equal(a: &Option<Vec<(String, String)>>, b: &Option<Vec<(String, String)>>) -> (r:
    bool)
    ensures
        r == (match (a, b) {
            (None, None) => true,
            (Some(xs), Some(ys)) => map_of(entries_view(xs@)) == map_of(entries_view(ys@)),
            _ => false,
        }),
{
    match (a, b) {
        (Some(xs), Some(ys)) => entry_maps_equal(xs, ys),
        (None, None) => true,
        _ => false,
    }
}

impl PartialEq for Message {
    fn eq(&self, other: &Self) -> (r: bool) {
        let c = self.content == other.content;
        let t = opt_string_equal(&self.timestamp, &other.timestamp);
        let m = opt_entries_equal(&self.metadata, &other.metadata);
        c && t && m
    }
}

impl vstd::std_specs::cmp::PartialEqSpecImpl for Message {
    open spec fn obeys_eq_spec() -> bool {
        true
    }

    open spec fn eq_spec(&self, other: &Message) -> bool {
        message_eq(self@, other@)
    }
}

impl PartialEq for UserInfo {
    fn eq(&self, other: &Self) -> (r: bool) {
        let c = self.name == other.name;
        let t = opt_string_equal(&self.email, &other.email);
        let m = opt_entries_equal(&self.metadata, &other.metadata);
        c && t && m
    }
}

impl vstd::std_specs::cmp::PartialEqSpecImpl for UserInfo {
    open spec fn obeys_eq_spec() -> bool {
        true
    }

    open spec fn eq_spec(&self, other: &UserInfo) -> bool {
        user_info_eq(self@, other@)
    }
}

/// Two messages whose content differs are never equal, whatever their
/// other fields hold.
pub proof fn lemma_message_unequal_content(a: &Message, b: &Message)
    requires
        a@.content != b@.content,
    ensures
        !message_eq(a@, b@),
{
}

/// Two messages built identically, field for field, are equal.
pub proof fn lemma_message_equal_identical(a: &Message, b: &Message)
    requires
        a@ == b@,
    ensures
        message_eq(a@, b@),
{
}

} // verus!
