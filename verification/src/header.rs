//! Header names and the header collection.
//!
//! A header name is either one of a closed set of predefined names, each
//! with a canonical lowercase wire string, or an arbitrary custom string
//! kept verbatim. Classification of raw text happens in `lookup`, which
//! compares case-insensitively against the predefined table. The
//! `HeaderMap` collection maps names to values; two names count as the
//! same key exactly when their wire strings are equal.

use vstd::prelude::*;

use crate::error::AppError;
use crate::error::ErrorKind;
use crate::text::contains_char;
use crate::text::find_char;
use crate::text::find_first;
use crate::text::eq_lower;
use crate::text::lower_char;
use crate::text::str_eq;
use crate::text::to_lower;
use crate::text::trim;
use crate::text::trim_model;

verus! {

/// The closed set of predefined header names.
#[derive(Debug, Clone, Copy, PartialEq, Eq, Hash, Structural)]
pub enum PredefinedName {
    ContentLength,
    Server,
    Referer,
}

/// Model of a header name: a predefined name, or a custom one held as the
/// raw character sequence.
pub enum KindV {
    Standard(PredefinedName),
    Custom(Seq<char>),
}

/// The canonical lowercase wire string of a predefined name.
pub open spec fn canonical(p: PredefinedName) -> Seq<char> {
    match p {
        PredefinedName::ContentLength => "content-length"@,
        PredefinedName::Server => "server"@,
        PredefinedName::Referer => "referer"@,
    }
}

/// The wire string of a header-name model: canonical for a predefined
/// name, the stored text for a custom one.
pub open spec fn wire_of(k: KindV) -> Seq<char> {
    match k {
        KindV::Standard(p) => canonical(p),
        KindV::Custom(s) => s,
    }
}

/// The predefined name whose canonical string matches `s`
/// case-insensitively, if any.
pub open spec fn find_model(s: Seq<char>) -> Option<PredefinedName> {
    if to_lower(s) == canonical(PredefinedName::ContentLength) {
        Some(PredefinedName::ContentLength)
    } else if to_lower(s) == canonical(PredefinedName::Server) {
        Some(PredefinedName::Server)
    } else if to_lower(s) == canonical(PredefinedName::Referer) {
        Some(PredefinedName::Referer)
    } else {
        None
    }
}

/// Classification of a raw name: the matching predefined name if the
/// table holds one, else the raw text as a custom name.
pub open spec fn lookup_model(s: Seq<char>) -> KindV {
    match find_model(s) {
        Some(p) => KindV::Standard(p),
        None => KindV::Custom(s),
    }
}

/// A header name as held at run time.
#[derive(Debug, PartialEq, Eq, Hash)]
pub enum Kind {
    Standard(PredefinedName),
    Custom(String),
}

impl View for Kind {
    type V = KindV;

    open spec fn view(&self) -> KindV {
        match self {
            Kind::Standard(p) => KindV::Standard(*p),
            Kind::Custom(s) => KindV::Custom(s@),
        }
    }
}

impl Clone for Kind {
    fn clone(&self) -> (r: Self)
        ensures
            r == *self,
    {
        match self {
            Kind::Standard(p) => Kind::Standard(*p),
            Kind::Custom(s) => Kind::Custom(s.clone()),
        }
    }
}

/// A value that can stand for a header name when inserting into a
/// `HeaderMap`: a raw string (classified through `lookup`) or a
/// predefined name.
pub trait IntoHeaderName {
    /// The header-name model this value stands for.
    spec fn name_model(&self) -> KindV;

    /// Turn the value into a header-name kind matching its model.
    fn kind(&self) -> (k: Kind)
        ensures
            k@ == self.name_model(),
    ;
}

impl IntoHeaderName for String {
    open spec fn name_model(&self) -> KindV {
        lookup_model(self@)
    }

    fn kind(&self) -> (k: Kind) {
        HeaderName::lookup(self.as_str()).kind
    }
}

impl IntoHeaderName for PredefinedName {
    open spec fn name_model(&self) -> KindV {
        KindV::Standard(*self)
    }

    fn kind(&self) -> (k: Kind) {
        Kind::Standard(*self)
    }
}

impl PredefinedName {
    /// The canonical lowercase wire string.
    pub fn canonical_str(&self) -> (r: &'static str)
        ensures
            r@ == canonical(*self),
    {
        match self {
            PredefinedName::ContentLength => "content-length",
            PredefinedName::Server => "server",
            PredefinedName::Referer => "referer",
        }
    }

    /// Case-insensitive search of the predefined table; `None` when the
    /// raw text matches no canonical string.
    pub fn find(s: &str) -> (r: Option<HeaderName>)
        ensures
            match r {
                Some(h) => find_model(s@) is Some && h@ == KindV::Standard(find_model(s@)->Some_0),
                None => find_model(s@) is None,
            },
    {
        let h = HeaderName::lookup(s);
        if h.is_standard() {
            Some(h)
        } else {
            None
        }
    }
}

/// A header name: either predefined (standard) or custom.
#[derive(Debug, PartialEq, Eq, Hash)]
pub struct HeaderName {
    pub kind: Kind,
}

impl View for HeaderName {
    type V = KindV;

    open spec fn view(&self) -> KindV {
        self.kind@
    }
}

impl Clone for HeaderName {
    fn clone(&self) -> (r: Self)
        ensures
            r == *self,
    {
        HeaderName { kind: self.kind.clone() }
    }
}

impl HeaderName {
    pub fn is_custom(&self) -> (r: bool)
        ensures
            r == (self@ is Custom),
    {
        match self.kind {
            Kind::Standard(_) => false,
            Kind::Custom(_) => true,
        }
    }

    pub fn is_standard(&self) -> (r: bool)
        ensures
            r == (self@ is Standard),
    {
        !self.is_custom()
    }

    /// Build a name from anything that stands for one.
    pub fn from<T: IntoHeaderName>(header: T) -> (r: Self)
        ensures
            r@ == header.name_model(),
    {
        HeaderName { kind: header.kind() }
    }

    /// A predefined name; always standard.
    pub fn from_predefined(p: PredefinedName) -> (r: Self)
        ensures
            r@ == KindV::Standard(p),
    {
        HeaderName { kind: Kind::Standard(p) }
    }

    /// A custom name holding the given text verbatim; no validation of
    /// token legality is performed.
    pub fn from_custom(s: String) -> (r: Self)
        ensures
            r@ == KindV::Custom(s@),
    {
        HeaderName { kind: Kind::Custom(s) }
    }

    /// Classify raw text: the matching predefined name when the table
    /// holds one (compared case-insensitively), else a custom name.
    pub fn lookup(raw: &str) -> (r: Self)
        ensures
            r@ == lookup_model(raw@),
    {
        let cl = PredefinedName::ContentLength.canonical_str();
        let sv = PredefinedName::Server.canonical_str();
        let rf = PredefinedName::Referer.canonical_str();
        if eq_lower(raw, cl) {
            Self::from_predefined(PredefinedName::ContentLength)
        } else if eq_lower(raw, sv) {
            Self::from_predefined(PredefinedName::Server)
        } else if eq_lower(raw, rf) {
            Self::from_predefined(PredefinedName::Referer)
        } else {
            Self::from_custom(String::from_str(raw))
        }
    }

    /// The canonical wire string for a standard name, the stored text for
    /// a custom one.
    pub fn display(&self) -> (r: String)
        ensures
            r@ == wire_of(self@),
    {
        match &self.kind {
            Kind::Standard(p) => String::from_str(p.canonical_str()),
            Kind::Custom(s) => s.clone(),
        }
    }

    /// Split a header line at its first colon into a name (classified via
    /// `lookup`) and a value (whitespace-trimmed). A line without a colon
    /// is malformed.
    pub fn parse(header_line: &str) -> (r: Result<(HeaderName, String), AppError>)
        ensures
            r is Ok <==> contains_char(header_line@, ':'),
            r matches Ok((name, value)) ==> {
                let i = find_first(header_line@, ':')->Some_0;
                &&& name@ == lookup_model(header_line@.take(i))
                &&& value@ == trim_model(header_line@.skip(i + 1))
            },
            r matches Err(e) ==> e.kind == ErrorKind::MalformedHeaderLine,
    {
        match find_char(header_line, ':') {
            Some(i) => {
                proof {
                    crate::text::lemma_find_first(header_line@, ':');
                }
                let n = header_line.unicode_len();
                let name_part = header_line.substring_char(0, i);
                let value_part = header_line.substring_char(i + 1, n);
                let name = HeaderName::lookup(name_part);
                let value = String::from_str(trim(value_part));
                proof {
                    assert(header_line@.subrange(0, i as int) =~= header_line@.take(i as int));
                    assert(header_line@.subrange(i + 1, n as int) =~= header_line@.skip(i + 1));
                }
                Ok((name, value))
            },
            None => Err(AppError::new(ErrorKind::MalformedHeaderLine)),
        }
    }
}

/// Model of one stored entry: the name model and the value text.
pub type EntryV = (KindV, Seq<char>);

pub open spec fn entry_view(e: (HeaderName, String)) -> EntryV {
    (e.0@, e.1@)
}

pub open spec fn entries_view(v: Seq<(HeaderName, String)>) -> Seq<EntryV> {
    v.map_values(|e: (HeaderName, String)| entry_view(e))
}

/// Viewing entries commutes with appending one entry.
pub proof fn lemma_entries_view_push(v: Seq<(HeaderName, String)>, e: (HeaderName, String))
    ensures
        entries_view(v.push(e)) == entries_view(v).push(entry_view(e)),
{
    let l = entries_view(v.push(e));
    let r = entries_view(v).push(entry_view(e));
    assert forall|k: int| 0 <= k < l.len() implies l[k] == r[k] by {
        if k < v.len() {
            assert(v.push(e)[k] == v[k]);
        } else {
            assert(v.push(e)[k] == e);
        }
    }
    assert(l =~= r);
}

/// One rendered entry: `<name>: <value>`.
pub open spec fn render_entry(e: EntryV) -> Seq<char> {
    wire_of(e.0) + ": "@ + e.1
}

/// Entries rendered in order, joined by `sep`, with no trailing separator.
pub open spec fn render_joined(entries: Seq<EntryV>, sep: Seq<char>) -> Seq<char>
    decreases entries.len(),
{
    if entries.len() == 0 {
        Seq::empty()
    } else if entries.len() == 1 {
        render_entry(entries[0])
    } else {
        render_joined(entries.drop_last(), sep) + sep + render_entry(entries.last())
    }
}

/// `i` is the first entry whose name has wire string `w`.
pub open spec fn first_wire_at(entries: Seq<EntryV>, w: Seq<char>, i: int) -> bool {
    &&& 0 <= i < entries.len()
    &&& wire_of(entries[i].0) == w
    &&& forall|k: int| 0 <= k < i ==> wire_of(#[trigger] entries[k].0) != w
}

pub open spec fn has_wire(entries: Seq<EntryV>, w: Seq<char>) -> bool {
    exists|i: int| first_wire_at(entries, w, i)
}

pub proof fn lemma_first_wire_unique(entries: Seq<EntryV>, w: Seq<char>, i: int, j: int)
    requires
        first_wire_at(entries, w, i),
        first_wire_at(entries, w, j),
    ensures
        i == j,
{
    if i < j {
        assert(wire_of(entries[i].0) != w);
    }
    if j < i {
        assert(wire_of(entries[j].0) != w);
    }
}

/// Any occurrence of a wire string has a first occurrence.
pub proof fn lemma_first_wire_exists(entries: Seq<EntryV>, w: Seq<char>, m: int)
    requires
        0 <= m < entries.len(),
        wire_of(entries[m].0) == w,
    ensures
        has_wire(entries, w),
    decreases m,
{
    if forall|k: int| 0 <= k < m ==> wire_of(#[trigger] entries[k].0) != w {
        assert(first_wire_at(entries, w, m));
    } else {
        let k = choose|k: int| 0 <= k < m && wire_of(#[trigger] entries[k].0) == w;
        lemma_first_wire_exists(entries, w, k);
    }
}

/// Insertion at the model level: the first entry carrying the same wire
/// string gets the new value (the stored name is kept, as a map keeps its
/// key); an absent key is appended at the end.
pub open spec fn map_insert_model(entries: Seq<EntryV>, k: KindV, v: Seq<char>) -> Seq<EntryV> {
    if has_wire(entries, wire_of(k)) {
        let i = choose|i: int| first_wire_at(entries, wire_of(k), i);
        entries.update(i, (entries[i].0, v))
    } else {
        entries.push((k, v))
    }
}

/// Entries inserted one after the other into an empty map, in order.
pub open spec fn entries_model(pairs: Seq<EntryV>) -> Seq<EntryV>
    decreases pairs.len(),
{
    if pairs.len() == 0 {
        Seq::empty()
    } else {
        map_insert_model(entries_model(pairs.drop_last()), pairs.last().0, pairs.last().1)
    }
}

/// All keys distinct by wire string.
pub open spec fn distinct_wires(entries: Seq<EntryV>) -> bool {
    forall|i: int, j: int|
        0 <= i < j < entries.len() ==> wire_of(#[trigger] entries[i].0) != wire_of(
            #[trigger] entries[j].0,
        )
}

/// Law: insertion keeps keys unique by wire string.
pub proof fn lemma_insert_preserves_distinct(entries: Seq<EntryV>, k: KindV, v: Seq<char>)
    requires
        distinct_wires(entries),
    ensures
        distinct_wires(map_insert_model(entries, k, v)),
{
    let w = wire_of(k);
    if has_wire(entries, w) {
        let i = choose|i: int| first_wire_at(entries, w, i);
        let r = entries.update(i, (entries[i].0, v));
        assert forall|m: int, n2: int|
            0 <= m < n2 < r.len() implies wire_of(#[trigger] r[m].0) != wire_of(
            #[trigger] r[n2].0,
        ) by {
            assert(r[m].0 == entries[m].0);
            assert(r[n2].0 == entries[n2].0);
        }
    } else {
        let r = entries.push((k, v));
        assert forall|m: int, n2: int|
            0 <= m < n2 < r.len() implies wire_of(#[trigger] r[m].0) != wire_of(
            #[trigger] r[n2].0,
        ) by {
            if n2 == entries.len() {
                assert(r[m].0 == entries[m].0);
                if wire_of(entries[m].0) == w {
                    lemma_first_wire_exists(entries, w, m);
                }
            } else {
                assert(r[m].0 == entries[m].0);
                assert(r[n2].0 == entries[n2].0);
            }
        }
    }
}

/// Appending one entry to a join: the first entry stands alone, every
/// later one is preceded by the separator.
pub proof fn lemma_render_snoc(entries: Seq<EntryV>, e: EntryV, sep: Seq<char>)
    ensures
        render_joined(entries.push(e), sep) == if entries.len() == 0 {
            render_entry(e)
        } else {
            render_joined(entries, sep) + sep + render_entry(e)
        },
{
    let p = entries.push(e);
    assert(p.drop_last() =~= entries);
    assert(p.last() == e);
    if entries.len() == 0 {
        assert(p[0] == e);
    }
}

/// Law: a joined empty collection is the empty string; a joined single
/// entry is `<name>: <value>` with no separator anywhere.
pub proof fn lemma_render_joined_small(e: EntryV, sep: Seq<char>)
    ensures
        render_joined(Seq::<EntryV>::empty(), sep) == Seq::<char>::empty(),
        render_joined(seq![e], sep) == render_entry(e),
{
}

/// Law: joining the concatenation of two entry lists emits all of the
/// first list's entries, in order, then all of the second's.
pub proof fn lemma_render_joined_concat(a: Seq<EntryV>, b: Seq<EntryV>, sep: Seq<char>)
    ensures
        render_joined(a + b, sep) == if a.len() == 0 {
            render_joined(b, sep)
        } else if b.len() == 0 {
            render_joined(a, sep)
        } else {
            render_joined(a, sep) + sep + render_joined(b, sep)
        },
    decreases b.len(),
{
    if b.len() == 0 {
        assert(a + b =~= a);
    } else if a.len() == 0 {
        assert(a + b =~= b);
    } else {
        let b0 = b.drop_last();
        lemma_render_joined_concat(a, b0, sep);
        assert((a + b).drop_last() =~= a + b0);
        assert((a + b).last() == b.last());
        if b0.len() == 0 {
            assert(b.last() == b[0]);
            assert(render_joined(b, sep) == render_entry(b[0]));
        } else {
            assert(render_joined(a + b, sep) == (render_joined(a, sep) + sep + render_joined(
                b0,
                sep,
            )) + sep + render_entry(b.last()));
            assert((render_joined(a, sep) + sep + render_joined(b0, sep)) + sep + render_entry(
                b.last(),
            ) =~= render_joined(a, sep) + sep + (render_joined(b0, sep) + sep + render_entry(
                b.last(),
            )));
        }
    }
}

/// A name→value collection. Iteration order is insertion order; keys are
/// unique by wire string; a later insert of an existing key overwrites
/// the value (last write wins).
#[derive(Debug)]
pub struct HeaderMap {
    pub entries: Vec<(HeaderName, String)>,
}

impl View for HeaderMap {
    type V = Seq<EntryV>;

    open spec fn view(&self) -> Seq<EntryV> {
        entries_view(self.entries@)
    }
}

impl HeaderMap {
    pub fn new() -> (r: HeaderMap)
        ensures
            r@ == Seq::<EntryV>::empty(),
            distinct_wires(r@),
    {
        let r = HeaderMap { entries: Vec::new() };
        proof {
            assert(r@ =~= Seq::<EntryV>::empty());
        }
        r
    }

    /// Whether two names are the same map key: equal wire strings.
    fn name_eq(a: &HeaderName, b: &HeaderName) -> (r: bool)
        ensures
            r == (wire_of(a@) == wire_of(b@)),
    {
        let sa = a.display();
        let sb = b.display();
        str_eq(sa.as_str(), sb.as_str())
    }

    /// Insert an already-classified name. An entry with the same key has
    /// its value overwritten and keeps its stored name.
    pub fn insert_name(&mut self, name: HeaderName, value: String)
        ensures
            final (self)@ == map_insert_model(old(self)@, name@, value@),
    {
        let n = self.entries.len();
        let mut i: usize = 0;
        while i < n
            invariant
                i <= n,
                n == self.entries@.len(),
                self.entries == old(self).entries,
                forall|k: int| 0 <= k < i ==> wire_of(#[trigger] old(self)@[k].0) != wire_of(
                    name@,
                ),
            decreases n - i,
        {
            let hit = Self::name_eq(&self.entries[i].0, &name);
            if hit {
                proof {
                    assert(old(self)@[i as int].0 == self.entries@[i as int].0@);
                    assert(first_wire_at(old(self)@, wire_of(name@), i as int));
                    let c = choose|c: int| first_wire_at(old(self)@, wire_of(name@), c);
                    lemma_first_wire_unique(old(self)@, wire_of(name@), c, i as int);
                }
                let kept = self.entries[i].0.clone();
                self.entries[i] = (kept, value);
                proof {
                    assert(final (self)@ =~= map_insert_model(old(self)@, name@, value@));
                }
                return ;
            }
            i += 1;
        }
        proof {
            if has_wire(old(self)@, wire_of(name@)) {
                let c = choose|c: int| first_wire_at(old(self)@, wire_of(name@), c);
                assert(wire_of(old(self)@[c].0) != wire_of(name@));
            }
        }
        self.entries.push((name, value));
        proof {
            assert(final (self)@ =~= map_insert_model(old(self)@, name@, value@));
        }
    }

    /// Add a header. The name can be a raw string (classified through
    /// `lookup`) or a predefined name; an existing entry with the same
    /// resulting key is overwritten.
    pub fn insert<T: IntoHeaderName>(&mut self, header: T, value: String)
        ensures
            final (self)@ == map_insert_model(old(self)@, header.name_model(), value@),
    {
        let name = HeaderName::from(header);
        self.insert_name(name, value);
    }

    /// Render the entries as `<name>: <value>` joined by `sep`, with no
    /// trailing separator.
    pub fn join(&self, sep: &str) -> (r: String)
        ensures
            r@ == render_joined(self@, sep@),
    {
        let empty_entries: Vec<(HeaderName, String)> = Vec::new();
        let r = Self::join_using(sep, &self.entries, &empty_entries);
        proof {
            assert(entries_view(self.entries@) + entries_view(empty_entries@) =~= self@);
        }
        r
    }

    /// Join two entry lists using `sep`: all of `m1`'s entries first,
    /// then all of `m2`'s. Entries sharing a key across the two lists are
    /// both emitted; nothing is deduplicated.
    pub fn join_using(sep: &str, m1: &Vec<(HeaderName, String)>, m2: &Vec<(HeaderName, String)>) -> (r:
        String)
        ensures
            r@ == render_joined(entries_view(m1@) + entries_view(m2@), sep@),
    {
        Self::_join(sep, m1, m2)
    }

    /// Worker for the join operations: renders `m1`'s entries, then
    /// `m2`'s, separated by `sep`.
    fn _join(sep: &str, m1: &Vec<(HeaderName, String)>, m2: &Vec<(HeaderName, String)>) -> (r:
        String)
        ensures
            r@ == render_joined(entries_view(m1@) + entries_view(m2@), sep@),
    {
        let ghost ev1 = entries_view(m1@);
        let ghost ev2 = entries_view(m2@);
        let mut res = String::new();
        let n1 = m1.len();
        let mut i: usize = 0;
        proof {
            assert(ev1.take(0) =~= Seq::<EntryV>::empty());
        }
        while i < n1
            invariant
                i <= n1,
                n1 == m1@.len(),
                ev1 == entries_view(m1@),
                res@ == render_joined(ev1.take(i as int), sep@),
            decreases n1 - i,
        {
            if i > 0 {
                res.append(sep);
            }
            let name_s = m1[i].0.display();
            res.append(name_s.as_str());
            res.append(": ");
            res.append(m1[i].1.as_str());
            proof {
                assert(ev1[i as int] == entry_view(m1@[i as int]));
                lemma_render_snoc(ev1.take(i as int), ev1[i as int], sep@);
                assert(ev1.take(i as int).push(ev1[i as int]) =~= ev1.take(i + 1));
                assert(res@ =~= render_joined(ev1.take(i + 1), sep@));
            }
            i += 1;
        }
        proof {
            assert(ev1.take(n1 as int) =~= ev1);
            assert((ev1 + ev2.take(0)) =~= ev1);
        }
        let n2 = m2.len();
        let mut j: usize = 0;
        while j < n2
            invariant
                j <= n2,
                n1 == m1@.len(),
                n2 == m2@.len(),
                ev1 == entries_view(m1@),
                ev2 == entries_view(m2@),
                res@ == render_joined(ev1 + ev2.take(j as int), sep@),
            decreases n2 - j,
        {
            if n1 > 0 || j > 0 {
                res.append(sep);
            }
            let name_s = m2[j].0.display();
            res.append(name_s.as_str());
            res.append(": ");
            res.append(m2[j].1.as_str());
            proof {
                assert(ev2[j as int] == entry_view(m2@[j as int]));
                lemma_render_snoc(ev1 + ev2.take(j as int), ev2[j as int], sep@);
                assert((ev1 + ev2.take(j as int)).push(ev2[j as int]) =~= ev1 + ev2.take(j + 1));
                assert((ev1 + ev2.take(j as int)).len() == n1 + j);
                assert(res@ =~= render_joined(ev1 + ev2.take(j + 1), sep@));
            }
            j += 1;
        }
        proof {
            assert(ev2.take(n2 as int) =~= ev2);
        }
        res
    }

    /// Borrow the stored entries.
    pub fn get_map(&self) -> (r: &Vec<(HeaderName, String)>)
        ensures
            *r == self.entries,
    {
        &self.entries
    }

    /// Build a map from already-parsed entries by inserting them in
    /// order; entries sharing a key collapse to the last value.
    pub fn from_map(map: Vec<(HeaderName, String)>) -> (r: HeaderMap)
        ensures
            r@ == entries_model(entries_view(map@)),
            distinct_wires(r@),
    {
        let ghost pairs = entries_view(map@);
        let mut r = HeaderMap::new();
        let n = map.len();
        let mut i: usize = 0;
        proof {
            assert(pairs.take(0) =~= Seq::<EntryV>::empty());
        }
        while i < n
            invariant
                i <= n,
                n == map@.len(),
                pairs == entries_view(map@),
                r@ == entries_model(pairs.take(i as int)),
                distinct_wires(r@),
            decreases n - i,
        {
            let name = map[i].0.clone();
            let value = map[i].1.clone();
            proof {
                lemma_insert_preserves_distinct(r@, name@, value@);
            }
            r.insert_name(name, value);
            proof {
                assert(pairs[i as int] == entry_view(map@[i as int]));
                assert(pairs.take(i + 1).drop_last() =~= pairs.take(i as int));
                assert(pairs.take(i + 1).last() == pairs[i as int]);
            }
            i += 1;
        }
        proof {
            assert(pairs.take(n as int) =~= pairs);
        }
        r
    }
}

/// Law: looking up the canonical wire string of a predefined name gives
/// back exactly that predefined name.
pub proof fn lemma_lookup_canonical(p: PredefinedName)
    ensures
        lookup_model(canonical(p)) == KindV::Standard(p),
{
    reveal_strlit("content-length");
    reveal_strlit("server");
    reveal_strlit("referer");
    lemma_to_lower_canonical(p);
    assert(canonical(PredefinedName::ContentLength).len() == 14);
    assert(canonical(PredefinedName::Server).len() == 6);
    assert(canonical(PredefinedName::Referer).len() == 7);
}

/// Every canonical wire string is already lowercase.
proof fn lemma_to_lower_canonical(p: PredefinedName)
    ensures
        to_lower(canonical(p)) == canonical(p),
{
    reveal_strlit("content-length");
    reveal_strlit("server");
    reveal_strlit("referer");
    let s = canonical(p);
    assert forall|i: int| 0 <= i < s.len() implies to_lower(s)[i] == s[i] by {
        assert(to_lower(s)[i] == lower_char(s[i]));
    }
    assert(to_lower(s) =~= s);
}

/// Law: a raw name whose lowercased form matches no canonical wire
/// string classifies as a custom name holding the raw text.
pub proof fn lemma_lookup_custom(s: Seq<char>)
    requires
        forall|p: PredefinedName| to_lower(s) != canonical(p),
    ensures
        lookup_model(s) == KindV::Custom(s),
{
    assert(to_lower(s) != canonical(PredefinedName::ContentLength));
    assert(to_lower(s) != canonical(PredefinedName::Server));
    assert(to_lower(s) != canonical(PredefinedName::Referer));
}

} // verus!
