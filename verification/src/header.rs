//! Custom HTTP headers of a connection.

use http::header::{
    HeaderMap, HeaderName, HeaderValue, InvalidHeaderName, InvalidHeaderValue, MaxSizeReached,
};
use vstd::prelude::*;
use vstd::utf8::encode_utf8;

use crate::text::{ascii_lower, lemma_ascii_lower_idempotent, trimmed};

verus! {

/// A custom header as the user typed it.
#[derive(Debug, Clone, Default, PartialEq, Eq)]
pub struct RemoteWorkspaceHeader {
    pub name: String,
    pub value: String,
}

/// The two texts of a [`RemoteWorkspaceHeader`].
#[verifier::ext_equal]
pub struct HeaderView {
    pub name: Seq<char>,
    pub value: Seq<char>,
}

impl View for RemoteWorkspaceHeader {
    type V = HeaderView;

    open spec fn view(&self) -> HeaderView {
        HeaderView { name: self.name@, value: self.value@ }
    }
}

/// The texts of a list of headers.
pub open spec fn header_rows(headers: Seq<RemoteWorkspaceHeader>) -> Seq<HeaderView> {
    Seq::new(headers.len(), |i: int| headers[i]@)
}

/// A header that can go on a request: a name in lower case, the bytes of its
/// value, and whether the value has to be kept out of logs and of the HPACK
/// dynamic table of HTTP/2.
#[derive(Clone, PartialEq, Eq)]
pub struct HeaderPair {
    pub name: String,
    pub value: Vec<u8>,
    pub sensitive: bool,
}

/// What a [`HeaderPair`] holds.
#[verifier::ext_equal]
pub struct HeaderPairView {
    pub name: Seq<char>,
    pub value: Seq<u8>,
    pub sensitive: bool,
}

impl View for HeaderPair {
    type V = HeaderPairView;

    open spec fn view(&self) -> HeaderPairView {
        HeaderPairView { name: self.name@, value: self.value@, sensitive: self.sensitive }
    }
}

/// Why a header cannot go on a request, with the reason in words.
#[derive(Debug, Clone, PartialEq, Eq)]
pub enum HeaderPairError {
    InvalidName(String),
    InvalidValue(String),
}

impl HeaderPairError {
    /// The reason in words.
    pub open spec fn text(self) -> Seq<char> {
        match self {
            HeaderPairError::InvalidName(text) => text@,
            HeaderPairError::InvalidValue(text) => text@,
        }
    }

    /// The reason in words.
    pub fn into_text(self) -> (text: String)
        ensures
            text@ == self.text(),
    {
        match self {
            HeaderPairError::InvalidName(text) => text,
            HeaderPairError::InvalidValue(text) => text,
        }
    }
}

/// A character that may stand in the name of a header.
pub open spec fn is_token_char(c: char) -> bool {
    ||| 'a' <= c <= 'z'
    ||| 'A' <= c <= 'Z'
    ||| '0' <= c <= '9'
    ||| c == '!'
    ||| '#' <= c <= '\''
    ||| c == '*'
    ||| c == '+'
    ||| c == '-'
    ||| c == '.'
    ||| '^' <= c <= '`'
    ||| c == '|'
    ||| c == '~'
}

/// A text that can be the name of a header.
pub open spec fn is_header_name(s: Seq<char>) -> bool {
    &&& 1 <= s.len() <= 65535
    &&& forall|i: int| 0 <= i < s.len() ==> is_token_char(#[trigger] s[i])
}

/// A text that can be the value of a header: no control character but the tab.
pub open spec fn is_header_value(s: Seq<char>) -> bool {
    forall|i: int|
        0 <= i < s.len() ==> (#[trigger] s[i]) == '\t' || (s[i] >= ' ' && s[i] != '\u{7f}')
}

/// Bytes that can be the value of a header.
pub open spec fn is_header_value_bytes(b: Seq<u8>) -> bool {
    forall|i: int| 0 <= i < b.len() ==> (#[trigger] b[i]) == 9 || (b[i] >= 32 && b[i] != 127)
}

/// What a header becomes on a request. The value counts as a credential.
pub open spec fn pair_of(header: HeaderView) -> HeaderPairView {
    HeaderPairView {
        name: ascii_lower(trimmed(header.name)),
        value: encode_utf8(trimmed(header.value)),
        sensitive: true,
    }
}

/// A header that can go on a request once both its texts are trimmed.
pub open spec fn is_sendable(header: HeaderView) -> bool {
    is_header_name(trimmed(header.name)) && is_header_value(trimmed(header.value))
}

/// Why a header cannot go on a request, in words.
pub open spec fn pair_error_text(header: HeaderView) -> Seq<char> {
    if !is_header_name(trimmed(header.name)) {
        "invalid HTTP header name"@
    } else {
        "failed to parse header value"@
    }
}

/// The error that [`HeaderName`] reports for a text that cannot be a name.
#[verifier::external_type_specification]
#[verifier::external_body]
pub struct ExInvalidHeaderName(InvalidHeaderName);

/// The error that [`HeaderValue`] reports for a text that cannot be a value.
#[verifier::external_type_specification]
#[verifier::external_body]
pub struct ExInvalidHeaderValue(InvalidHeaderValue);

/// The error that [`HeaderMap`] reports when it cannot grow any more.
#[verifier::external_type_specification]
#[verifier::external_body]
pub struct ExMaxSizeReached(MaxSizeReached);

/// A header value in a [`HeaderMap`].
#[verifier::external_type_specification]
#[verifier::external_body]
pub struct ExHeaderValue(HeaderValue);

/// The headers of a request, by name.
#[verifier::external_type_specification]
#[verifier::external_body]
#[verifier::reject_recursive_types(T)]
pub struct ExHeaderMap<T>(HeaderMap<T>);

/// What a [`HeaderMap`] holds: under each name, in lower case, the values that
/// were given for it, in the order they came, each as its bytes and whether it
/// is marked sensitive.
pub uninterp spec fn header_map_contents(map: HeaderMap<HeaderValue>) -> Map<
    Seq<char>,
    Seq<(Seq<u8>, bool)>,
>;

/// No headers.
pub open spec fn no_headers() -> Map<Seq<char>, Seq<(Seq<u8>, bool)>> {
    Map::empty()
}

/// `headers` with one more value under the name of `pair`, behind the values
/// that stand there already.
pub open spec fn with_pair(
    headers: Map<Seq<char>, Seq<(Seq<u8>, bool)>>,
    pair: HeaderPairView,
) -> Map<Seq<char>, Seq<(Seq<u8>, bool)>> {
    let before = if headers.dom().contains(pair.name) {
        headers[pair.name]
    } else {
        seq![]
    };
    headers.insert(pair.name, before.push((pair.value, pair.sensitive)))
}

/// The headers that go on a request for these rows: one value for every row
/// that is sendable, in the order of the rows; the others are left out.
pub open spec fn header_map_of(rows: Seq<HeaderView>) -> Map<Seq<char>, Seq<(Seq<u8>, bool)>>
    decreases rows.len(),
{
    if rows.len() == 0 {
        no_headers()
    } else if is_sendable(rows.last()) {
        with_pair(header_map_of(rows.drop_last()), pair_of(rows.last()))
    } else {
        header_map_of(rows.drop_last())
    }
}

/// A number of different names with which a [`HeaderMap`] can take one more
/// value, however its hashes fall: the map has at most 32768 slots, and with
/// all of them in use it asks for more when a fifth of them is filled.
pub open spec fn has_room(names: nat) -> bool {
    5 * names < 32768
}

/// There is room for one more name beside thousands.
pub proof fn there_is_room_for_thousands_of_names(names: nat)
    requires
        names <= 6553,
    ensures
        has_room(names),
{
}

/// `HeaderName::try_from` on a string: it accepts 1 to 65535 characters that
/// may all stand in a header name, and gives them back in lower case.
#[verifier::external_body]
fn parse_header_name(text: &str) -> (r: Result<String, InvalidHeaderName>)
    ensures
        r is Ok <==> is_header_name(text@),
        r matches Ok(name) ==> name@ == ascii_lower(text@),
{
    HeaderName::try_from(text).map(|name| name.as_str().to_owned())
}

/// The text of an [`InvalidHeaderName`] is always the same.
#[verifier::external_body]
fn invalid_name_text(error: &InvalidHeaderName) -> (text: String)
    ensures
        text@ == "invalid HTTP header name"@,
{
    error.to_string()
}

/// `HeaderValue::try_from` on a string: it accepts a text without control
/// characters (a tab may stand in it) and keeps its bytes.
#[verifier::external_body]
fn parse_header_value(text: &str) -> (r: Result<Vec<u8>, InvalidHeaderValue>)
    ensures
        r is Ok <==> is_header_value(text@),
        r matches Ok(value) ==> value@ == encode_utf8(text@) && is_header_value_bytes(value@),
{
    HeaderValue::try_from(text).map(|value| value.as_bytes().to_vec())
}

/// The text of an [`InvalidHeaderValue`] is always the same.
#[verifier::external_body]
fn invalid_value_text(error: &InvalidHeaderValue) -> (text: String)
    ensures
        text@ == "failed to parse header value"@,
{
    error.to_string()
}

/// `HeaderMap::new` gives a map that holds nothing.
#[verifier::external_body]
fn new_header_map() -> (map: HeaderMap<HeaderValue>)
    ensures
        header_map_contents(map) == no_headers(),
{
    HeaderMap::new()
}

/// `HeaderMap::try_append` puts the value behind those that stand under the
/// name, and says whether there were any. It fails, and then changes nothing,
/// only when the map is too full to take one more. The pair goes in as a
/// `HeaderName` and a `HeaderValue` that carries the pair's mark.
#[verifier::external_body]
fn append_pair(map: &mut HeaderMap<HeaderValue>, pair: &HeaderPair) -> (r: Result<
    bool,
    MaxSizeReached,
>)
    requires
        is_header_name(pair.name@),
        ascii_lower(pair.name@) == pair.name@,
        is_header_value_bytes(pair.value@),
    ensures
        r matches Ok(present) ==> present == header_map_contents(*old(map)).dom().contains(
            pair.name@,
        ),
        r is Ok ==> header_map_contents(*final(map)) == with_pair(
            header_map_contents(*old(map)),
            pair@,
        ),
        r is Err ==> header_map_contents(*final(map)) == header_map_contents(*old(map)),
        has_room(header_map_contents(*old(map)).dom().len()) ==> r is Ok,
{
    let name = HeaderName::try_from(pair.name.as_str()).unwrap();
    let mut value = HeaderValue::from_bytes(&pair.value).unwrap();
    value.set_sensitive(pair.sensitive);
    map.try_append(name, value)
}

impl RemoteWorkspaceHeader {
    /// The header as it goes on a request.
    pub fn to_header_pair(&self) -> (r: Result<HeaderPair, HeaderPairError>)
        ensures
            r is Ok <==> is_sendable(self@),
            r matches Ok(pair) ==> pair@ == pair_of(self@) && is_header_value_bytes(pair.value@),
            r matches Err(error) ==> (error is InvalidName <==> !is_header_name(
                trimmed(self.name@),
            )) && error.text() == pair_error_text(self@),
    {
        let name: String = match parse_header_name(self.name.as_str().trim()) {
            Ok(name) => name,
            Err(error) => {
                return Err(HeaderPairError::InvalidName(invalid_name_text(&error)));
            },
        };
        let value: Vec<u8> = match parse_header_value(self.value.as_str().trim()) {
            Ok(value) => value,
            Err(error) => {
                return Err(HeaderPairError::InvalidValue(invalid_value_text(&error)));
            },
        };
        Ok(HeaderPair { name, value, sensitive: true })
    }

    /// A copy of the header.
    pub(crate) fn copy(&self) -> (r: Self)
        ensures
            r@ == self@,
    {
        RemoteWorkspaceHeader { name: self.name.clone(), value: self.value.clone() }
    }
}

/// The names of the headers that went through fit in lower case what they were
/// in mixed case.
proof fn lemma_name_lowered(s: Seq<char>)
    requires
        is_header_name(s),
    ensures
        is_header_name(ascii_lower(s)),
        ascii_lower(ascii_lower(s)) == ascii_lower(s),
{
    lemma_ascii_lower_idempotent(s);
    let t = ascii_lower(s);
    assert forall|i: int| 0 <= i < t.len() implies is_token_char(#[trigger] t[i]) by {
        assert(is_token_char(s[i]));
    }
}

/// The headers of the first rows have no more names than those of all.
proof fn lemma_names_grow(rows: Seq<HeaderView>, n: int)
    requires
        0 <= n <= rows.len(),
    ensures
        header_map_of(rows.take(n)).dom().subset_of(header_map_of(rows).dom()),
        header_map_of(rows).dom().finite(),
        header_map_of(rows.take(n)).dom().len() <= header_map_of(rows).dom().len(),
    decreases rows.len(),
{
    lemma_names_finite(rows);
    if n < rows.len() {
        lemma_names_grow(rows.drop_last(), n);
        assert(rows.drop_last().take(n) =~= rows.take(n));
    } else {
        assert(rows.take(n) =~= rows);
    }
    vstd::set_lib::lemma_len_subset(
        header_map_of(rows.take(n)).dom(),
        header_map_of(rows).dom(),
    );
}

proof fn lemma_names_finite(rows: Seq<HeaderView>)
    ensures
        header_map_of(rows).dom().finite(),
    decreases rows.len(),
{
    if rows.len() > 0 {
        lemma_names_finite(rows.drop_last());
    }
}

/// The values that the rows give for a name, in the order of the rows.
pub open spec fn values_named(rows: Seq<HeaderView>, name: Seq<char>) -> Seq<(Seq<u8>, bool)> {
    rows.filter(|row: HeaderView| is_sendable(row) && pair_of(row).name == name).map_values(
        |row: HeaderView| (pair_of(row).value, pair_of(row).sensitive),
    )
}

/// Repeated names keep all their values, in the order of the rows, and nothing
/// but the sendable rows contributes: under each name stand exactly the values
/// that the rows give for it, and a name without a value does not occur.
pub proof fn header_map_keeps_repeats_in_order(rows: Seq<HeaderView>, name: Seq<char>)
    ensures
        header_map_of(rows).dom().contains(name) <==> values_named(rows, name).len() > 0,
        header_map_of(rows).dom().contains(name) ==> header_map_of(rows)[name] == values_named(
            rows,
            name,
        ),
    decreases rows.len(),
{
    reveal(Seq::filter);
    if rows.len() > 0 {
        let rest = rows.drop_last();
        header_map_keeps_repeats_in_order(rest, name);
        let named = |row: HeaderView| is_sendable(row) && pair_of(row).name == name;
        if named(rows.last()) {
            assert(rows.filter(named) =~= rest.filter(named).push(rows.last()));
            assert(values_named(rows, name) =~= values_named(rest, name).push(
                (pair_of(rows.last()).value, true),
            ));
            if !header_map_of(rest).dom().contains(name) {
                assert(values_named(rest, name) =~= seq![]);
            }
        } else {
            assert(rows.filter(named) =~= rest.filter(named));
        }
    } else {
        assert(values_named(rows, name) =~= seq![]);
    }
}

/// Every value that goes on a request for custom headers is marked sensitive.
pub proof fn header_map_values_are_sensitive(rows: Seq<HeaderView>, name: Seq<char>, i: int)
    requires
        header_map_of(rows).dom().contains(name),
        0 <= i < header_map_of(rows)[name].len(),
    ensures
        header_map_of(rows)[name][i].1,
{
    header_map_keeps_repeats_in_order(rows, name);
}

/// How many values there are, under all names together.
pub open spec fn value_count(headers: Map<Seq<char>, Seq<(Seq<u8>, bool)>>) -> nat
    decreases headers.dom().len(),
    when headers.dom().finite()
{
    if headers.dom().len() == 0 {
        0
    } else {
        let name = headers.dom().choose();
        headers[name].len() + value_count(headers.remove(name))
    }
}

/// The values under one name count once, whichever name it is.
proof fn lemma_value_count_remove(
    headers: Map<Seq<char>, Seq<(Seq<u8>, bool)>>,
    name: Seq<char>,
)
    requires
        headers.dom().finite(),
        headers.dom().contains(name),
    ensures
        value_count(headers) == headers[name].len() + value_count(headers.remove(name)),
    decreases headers.dom().len(),
{
    let other = headers.dom().choose();
    assert(headers.dom().contains(other));
    if other != name {
        let rest = headers.remove(other);
        lemma_value_count_remove(rest, name);
        lemma_value_count_remove(headers.remove(name), other);
        assert(rest.remove(name) =~= headers.remove(name).remove(other));
    }
}

/// One more value is one more, wherever it goes.
proof fn lemma_value_count_with_pair(
    headers: Map<Seq<char>, Seq<(Seq<u8>, bool)>>,
    pair: HeaderPairView,
)
    requires
        headers.dom().finite(),
    ensures
        value_count(with_pair(headers, pair)) == value_count(headers) + 1,
{
    let more = with_pair(headers, pair);
    lemma_value_count_remove(more, pair.name);
    if headers.dom().contains(pair.name) {
        lemma_value_count_remove(headers, pair.name);
        assert(more.remove(pair.name) =~= headers.remove(pair.name));
    } else {
        assert(more.remove(pair.name) =~= headers);
    }
}

/// There are as many values as sendable rows: no row overwrites another.
pub proof fn header_map_has_a_value_for_each_sendable_row(rows: Seq<HeaderView>)
    ensures
        value_count(header_map_of(rows)) == rows.filter(
            |row: HeaderView| is_sendable(row),
        ).len(),
    decreases rows.len(),
{
    reveal(Seq::filter);
    if rows.len() > 0 {
        let rest = rows.drop_last();
        header_map_has_a_value_for_each_sendable_row(rest);
        lemma_names_finite(rest);
        if is_sendable(rows.last()) {
            lemma_value_count_with_pair(header_map_of(rest), pair_of(rows.last()));
        }
    }
}

/// A [`HeaderMap`] could not take all the headers.
#[derive(Debug, Clone, Copy, PartialEq, Eq)]
pub struct HeaderMapFull;

/// What can go on a request as its headers.
pub trait ToHeaderMap {
    /// The rows that become headers.
    spec fn rows(&self) -> Seq<HeaderView>;

    /// The headers for these rows; a row that is not sendable is left out. More
    /// names than a [`HeaderMap`] is sure to hold are for
    /// [`ToHeaderMap::try_to_header_map`].
    fn to_header_map(&self) -> (map: HeaderMap<HeaderValue>)
        requires
            has_room(header_map_of(self.rows()).dom().len()),
        ensures
            header_map_contents(map) == header_map_of(self.rows()),
    ;

    /// The headers for these rows, as far as a [`HeaderMap`] can hold that many
    /// different names.
    fn try_to_header_map(&self) -> (r: Result<HeaderMap<HeaderValue>, HeaderMapFull>)
        ensures
            r matches Ok(map) ==> header_map_contents(map) == header_map_of(self.rows()),
            has_room(header_map_of(self.rows()).dom().len()) ==> r is Ok,
    ;
}

impl ToHeaderMap for [RemoteWorkspaceHeader] {
    open spec fn rows(&self) -> Seq<HeaderView> {
        header_rows(self@)
    }

    fn to_header_map(&self) -> (map: HeaderMap<HeaderValue>) {
        match self.try_to_header_map() {
            Ok(map) => map,
            Err(_) => vstd::pervasive::unreached(),
        }
    }

    fn try_to_header_map(&self) -> (r: Result<HeaderMap<HeaderValue>, HeaderMapFull>) {
        let mut map: HeaderMap<HeaderValue> = new_header_map();
        let ghost rows = header_rows(self@);
        assert(rows.take(0) =~= seq![]);
        for i in 0..self.len()
            invariant
                rows == header_rows(self@),
                header_map_contents(map) == header_map_of(rows.take(i as int)),
        {
            proof {
                assert(rows.take(i + 1).drop_last() =~= rows.take(i as int));
                lemma_names_grow(rows, i as int);
            }
            if let Ok(pair) = self[i].to_header_pair() {
                proof {
                    lemma_name_lowered(trimmed(rows[i as int].name));
                }
                if append_pair(&mut map, &pair).is_err() {
                    return Err(HeaderMapFull);
                }
            }
        }
        assert(rows.take(self@.len() as int) =~= rows);
        Ok(map)
    }
}

} // verus!
