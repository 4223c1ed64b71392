//! HTTP headers: parsing a header line, case-insensitive lookup, removal.
use vstd::prelude::*;
use crate::text::{chars_of, find_char, first_index, trim, trim_str};

verus! {

/// What `str::to_lowercase` returns for a string: its lowercase equivalent
/// under the Unicode `Lowercase` property.
pub uninterp spec fn lowercased(s: Seq<char>) -> Seq<char>;

/// Calls `str::to_lowercase`. The contract says only that the result is the
/// named lowercase form of the argument: a function of the argument alone.
#[verifier::external_body]
fn to_lowercase(s: &str) -> (r: String)
    ensures
        r@ == lowercased(s@),
{
    s.to_lowercase()
}

/// Two header names are equal when their lowercase forms are equal.
pub open spec fn names_match(a: Seq<char>, b: Seq<char>) -> bool {
    lowercased(a) == lowercased(b)
}

/// A header as plain values: its name and its value.
pub type HeaderV = (Seq<char>, Seq<char>);

/// An HTTP header, a name and a value.
#[derive(Clone, Debug)]
pub struct Header {
    pub name: String,
    pub value: String,
}

impl View for Header {
    type V = HeaderV;

    open spec fn view(&self) -> HeaderV {
        (self.name@, self.value@)
    }
}

/// What a header line parses to: the text before the first `:` and the text
/// after it, each trimmed; nothing when the line holds no `:`.
pub open spec fn parsed_header(line: Seq<char>) -> Option<HeaderV> {
    match first_index(line, ':') {
        Some(i) => Some((trim(line.take(i)), trim(line.skip(i + 1)))),
        None => None,
    }
}

impl Header {
    /// A header with the given name and value.
    pub fn new(name: &str, value: &str) -> (h: Header)
        ensures
            h@ == (name@, value@),
    {
        Header { name: name.to_owned(), value: value.to_owned() }
    }

    /// Parses an HTTP header line received from the server.
    /// It does not panic: it returns `None` when the line can not be parsed.
    pub fn parse(line: &str) -> (r: Option<Header>)
        ensures
            r matches Some(h) ==> parsed_header(line@) == Some(h@),
            r is None ==> parsed_header(line@) is None,
    {
        let v = chars_of(line);
        match find_char(&v, ':') {
            Some(index) => {
                let name = trim_str(line.substring_char(0, index));
                let value = trim_str(line.substring_char(index + 1, v.len()));
                assert(line@.subrange(0, index as int) =~= line@.take(index as int));
                assert(line@.subrange(index + 1, v.len() as int) =~= line@.skip(index + 1));
                Some(Header::new(name.as_str(), value.as_str()))
            },
            None => None,
        }
    }

    /// Whether this header's name equals `name`, ignoring case.
    pub fn name_eq(&self, name: &str) -> (b: bool)
        ensures
            b == names_match(self.name@, name@),
    {
        let a = to_lowercase(self.name.as_str());
        let b = to_lowercase(name);
        a == b
    }
}

/// Position of the first header of `hs` whose name matches `name`.
pub open spec fn first_named(hs: Seq<HeaderV>, name: Seq<char>) -> Option<int>
    decreases hs.len(),
{
    if hs.len() == 0 {
        None
    } else {
        match first_named(hs.drop_last(), name) {
            Some(i) => Some(i),
            None => if names_match(hs.last().0, name) {
                Some(hs.len() - 1)
            } else {
                None
            },
        }
    }
}

/// `hs` without the headers whose name matches `name`, in order.
pub open spec fn without_named(hs: Seq<HeaderV>, name: Seq<char>) -> Seq<HeaderV>
    decreases hs.len(),
{
    if hs.len() == 0 {
        hs
    } else if names_match(hs.last().0, name) {
        without_named(hs.drop_last(), name)
    } else {
        without_named(hs.drop_last(), name).push(hs.last())
    }
}

/// Whether some header of `hs` is named `name`.
pub open spec fn has_named(hs: Seq<HeaderV>, name: Seq<char>) -> bool {
    exists|i: int| 0 <= i < hs.len() && names_match(#[trigger] hs[i].0, name)
}

/// A first match found in a prefix is the first match in the whole list.
proof fn lemma_first_named_prefix(hs: Seq<HeaderV>, name: Seq<char>, n: int)
    requires
        0 <= n <= hs.len(),
        first_named(hs.take(n), name) is Some,
    ensures
        first_named(hs, name) == first_named(hs.take(n), name),
    decreases hs.len() - n,
{
    if n < hs.len() {
        assert(hs.take(n + 1).drop_last() =~= hs.take(n));
        lemma_first_named_prefix(hs, name, n + 1);
    } else {
        assert(hs.take(n) =~= hs);
    }
}

/// What `first_named` finds: a header of that name, with none before it.
pub proof fn lemma_first_named(hs: Seq<HeaderV>, name: Seq<char>)
    ensures
        first_named(hs, name) is None <==> !has_named(hs, name),
        first_named(hs, name) matches Some(i) ==> 0 <= i < hs.len() && names_match(hs[i].0, name)
            && forall|j: int| 0 <= j < i ==> !names_match(#[trigger] hs[j].0, name),
    decreases hs.len(),
{
    if hs.len() > 0 {
        let d = hs.drop_last();
        lemma_first_named(d, name);
        assert forall|j: int| 0 <= j < hs.len() - 1 implies hs[j] == #[trigger] d[j] by {}
        match first_named(d, name) {
            Some(i) => {
                assert forall|j: int| 0 <= j < i implies !names_match(#[trigger] hs[j].0, name) by {
                    assert(!names_match(d[j].0, name));
                }
                assert(hs[i] == d[i]);
            },
            None => {
                assert forall|j: int| 0 <= j < hs.len() - 1 implies !names_match(
                    #[trigger] hs[j].0,
                    name,
                ) by {
                    assert(d[j] == hs[j]);
                    if names_match(hs[j].0, name) {
                        assert(names_match(d[j].0, name));
                    }
                }
                if names_match(hs.last().0, name) {
                    assert(names_match(hs[hs.len() - 1].0, name));
                } else {
                    assert forall|j: int| 0 <= j < hs.len() implies !names_match(
                        #[trigger] hs[j].0,
                        name,
                    ) by {
                        if j < hs.len() - 1 {
                            assert(d[j] == hs[j]);
                            assert(!names_match(d[j].0, name));
                        }
                    }
                }
            },
        }
    }
}

/// No header of `without_named(hs, name)` is named `name`; every other header stays.
pub proof fn lemma_without_named(hs: Seq<HeaderV>, name: Seq<char>)
    ensures
        !has_named(without_named(hs, name), name),
        forall|h: HeaderV| #[trigger] without_named(hs, name).contains(h) <==> hs.contains(h)
            && !names_match(h.0, name),
    decreases hs.len(),
{
    if hs.len() > 0 {
        let d = hs.drop_last();
        lemma_without_named(d, name);
        let w = without_named(d, name);
        assert forall|h: HeaderV| hs.contains(h) <==> d.contains(h) || h == hs.last() by {
            if hs.contains(h) {
                let k = choose|k: int| 0 <= k < hs.len() && hs[k] == h;
                if k < hs.len() - 1 {
                    assert(d[k] == h);
                }
            }
            if d.contains(h) {
                let k = choose|k: int| 0 <= k < d.len() && d[k] == h;
                assert(hs[k] == h);
            }
            if h == hs.last() {
                assert(hs[hs.len() - 1] == h);
            }
        }
        if !names_match(hs.last().0, name) {
            let w2 = w.push(hs.last());
            assert forall|h: HeaderV| w2.contains(h) <==> w.contains(h) || h == hs.last() by {
                if w2.contains(h) {
                    let k = choose|k: int| 0 <= k < w2.len() && w2[k] == h;
                    if k < w.len() {
                        assert(w[k] == h);
                    }
                }
                if w.contains(h) {
                    let k = choose|k: int| 0 <= k < w.len() && w[k] == h;
                    assert(w2[k] == h);
                }
                if h == hs.last() {
                    assert(w2[w.len() as int] == h);
                }
            }
            assert forall|i: int| 0 <= i < w2.len() implies !names_match(#[trigger] w2[i].0, name) by {
                if i < w.len() {
                    assert(w2[i] == w[i]);
                }
            }
        }
    }
}

/// A list of headers, kept in order; names may repeat.
#[derive(Clone, Debug)]
pub struct HeaderVec {
    pub headers: Vec<Header>,
}

impl View for HeaderVec {
    type V = Seq<HeaderV>;

    open spec fn view(&self) -> Seq<HeaderV> {
        self.headers@.map_values(|h: Header| h@)
    }
}

impl HeaderVec {
    /// An empty list.
    pub fn new() -> (r: HeaderVec)
        ensures
            r@ == Seq::<HeaderV>::empty(),
    {
        let r = HeaderVec { headers: Vec::new() };
        assert(r@ =~= Seq::<HeaderV>::empty());
        r
    }

    /// Appends `header` at the end.
    pub fn push(&mut self, header: Header)
        ensures
            final(self)@ == old(self)@.push(header@),
    {
        self.headers.push(header);
        assert(self@ =~= old(self)@.push(header@));
    }

    /// Number of headers.
    pub fn len(&self) -> (n: usize)
        ensures
            n == self@.len(),
    {
        self.headers.len()
    }

    /// The first header whose name equals `name`, ignoring case.
    pub fn get(&self, name: &str) -> (r: Option<&Header>)
        ensures
            r matches Some(h) ==> first_named(self@, name@) matches Some(i) && h@ == self@[i],
            r is None ==> first_named(self@, name@) is None,
    {
        let mut i: usize = 0;
        while i < self.headers.len()
            invariant
                i <= self.headers.len(),
                first_named(self@.take(i as int), name@) is None,
            decreases self.headers.len() - i,
        {
            assert(self@.take(i + 1).drop_last() =~= self@.take(i as int));
            if self.headers[i].name_eq(name) {
                assert(self@.take(i + 1).last() == self@[i as int]);
                proof {
                    lemma_first_named_prefix(self@, name@, (i + 1) as int);
                }
                return Some(&self.headers[i]);
            }
            i = i + 1;
        }
        assert(self@.take(self.headers.len() as int) =~= self@);
        None
    }

    /// Whether some header is named `name`, ignoring case.
    pub fn contains_key(&self, name: &str) -> (b: bool)
        ensures
            b == has_named(self@, name@),
    {
        proof {
            lemma_first_named(self@, name@);
        }
        self.get(name).is_some()
    }

    /// Removes every header named `name`, ignoring case; the others keep their order.
    pub fn remove_named(&mut self, name: &str)
        ensures
            final(self)@ == without_named(old(self)@, name@),
    {
        let mut kept: Vec<Header> = Vec::new();
        let ghost old_v = self@;
        let mut i: usize = 0;
        while i < self.headers.len()
            invariant
                i <= self.headers.len(),
                self@ == old_v,
                kept@.map_values(|h: Header| h@) == without_named(old_v.take(i as int), name@),
            decreases self.headers.len() - i,
        {
            assert(old_v.take(i + 1).drop_last() =~= old_v.take(i as int));
            assert(old_v.take(i + 1).last() == old_v[i as int]);
            if !self.headers[i].name_eq(name) {
                let h = Header::new(self.headers[i].name.as_str(), self.headers[i].value.as_str());
                kept.push(h);
            }
            i = i + 1;
        }
        assert(old_v.take(self.headers.len() as int) =~= old_v);
        self.headers = kept;
    }
}


/// The headers of `hs` followed by each user header line of `raw` that
/// parses and whose name is not already among `hs`, in the order of `raw`.
pub open spec fn aggregated(hs: Seq<HeaderV>, raw: Seq<Seq<char>>) -> Seq<HeaderV>
    decreases raw.len(),
{
    if raw.len() == 0 {
        hs
    } else {
        let acc = aggregated(hs, raw.drop_last());
        match parsed_header(raw.last()) {
            Some(h) => if has_named(hs, h.0) {
                acc
            } else {
                acc.push(h)
            },
            None => acc,
        }
    }
}

/// The plain values of a list of strings.
pub open spec fn strings_view(v: Seq<String>) -> Seq<Seq<char>> {
    v.map_values(|s: String| s@)
}

impl HeaderVec {
    /// A copy of this list.
    pub fn duplicate(&self) -> (r: HeaderVec)
        ensures
            r@ == self@,
    {
        let mut r = HeaderVec::new();
        let mut i: usize = 0;
        while i < self.headers.len()
            invariant
                i <= self.headers.len(),
                r@ == self@.take(i as int),
            decreases self.headers.len() - i,
        {
            r.push(Header::new(self.headers[i].name.as_str(), self.headers[i].value.as_str()));
            assert(self@.take(i + 1) =~= self@.take(i as int).push(self@[i as int]));
            i = i + 1;
        }
        assert(self@.take(self.headers.len() as int) =~= self@);
        r
    }

    /// Aggregates these headers with user header lines `raw_user_headers`
    /// (each `name: value`): all of these headers, then each user header that
    /// parses and is not already present here (names compared ignoring case).
    pub fn aggregate_raw_headers(&self, raw_user_headers: &[String]) -> (r: HeaderVec)
        ensures
            r@ == aggregated(self@, strings_view(raw_user_headers@)),
    {
        let ghost raw = strings_view(raw_user_headers@);
        let mut r = self.duplicate();
        let mut i: usize = 0;
        while i < raw_user_headers.len()
            invariant
                i <= raw_user_headers.len(),
                raw == strings_view(raw_user_headers@),
                r@ == aggregated(self@, raw.take(i as int)),
            decreases raw_user_headers.len() - i,
        {
            assert(raw.take(i + 1).drop_last() =~= raw.take(i as int));
            assert(raw.take(i + 1).last() == raw_user_headers@[i as int]@);
            match Header::parse(raw_user_headers[i].as_str()) {
                Some(h) => {
                    if !self.contains_key(h.name.as_str()) {
                        r.push(h);
                    }
                },
                None => {},
            }
            i = i + 1;
        }
        assert(raw.take(raw_user_headers.len() as int) =~= raw);
        r
    }
}


/// A header written as `name: value` parses back to that name and value,
/// when the name holds no `:` and neither part has white space at its ends.
pub proof fn law_header_line_roundtrip(name: Seq<char>, value: Seq<char>)
    requires
        !name.contains(':'),
        trim(name) == name,
        trim(value) == value,
    ensures
        parsed_header(name + ": "@ + value) == Some((name, value)),
{
    reveal_strlit(": ");
    reveal_strlit(" ");
    let line = name + ": "@ + value;
    crate::text::lemma_first_index(line, ':');
    assert(line[name.len() as int] == ':');
    assert(line.contains(':'));
    let i = first_index(line, ':')->0;
    if i < name.len() {
        assert(name[i] == line[i]);
        assert(name.contains(':'));
    }
    assert(i == name.len());
    assert(line.take(i) =~= name);
    let rest = line.skip(i + 1);
    assert(rest =~= " "@ + value);
    assert(rest.drop_first() =~= value);
    assert(crate::text::is_ws(rest[0]));
    assert(crate::text::trim_start(rest) == crate::text::trim_start(value));
}

} // verus!
