//! Laws on what becomes of what a user typed, stated on the characters: white
//! space around a text goes, and nothing else does.

use vstd::prelude::*;
use vstd::utf8::{decode_utf8, encode_utf8, encode_utf8_decode_utf8};

use crate::app_error::AppErrorCode;
use crate::header::{
    header_map_of, is_header_name, is_header_value, is_sendable, pair_of, HeaderView,
};
use crate::text::{
    ascii_lower, is_white_space, lemma_strip_end, lemma_trim_ends, strip_end, trim_end, trim_start,
    trimmed,
};
use crate::validate::{
    first_row_error, is_blank, kept_rows, lemma_first_row_error_at, lemma_first_row_error_none,
    lemma_kept_rows_last, normalized_base_url, row_error, url_scheme, validated_headers,
    validated_name, validated_token,
};

verus! {

/// Nothing but white space.
pub open spec fn all_white_space(s: Seq<char>) -> bool {
    forall|i: int| 0 <= i < s.len() ==> is_white_space(#[trigger] s[i])
}

/// `s` is `head`, `t` and `tail`, where the ends are white space and `t` neither
/// starts nor ends with any.
pub open spec fn trims(s: Seq<char>, head: Seq<char>, t: Seq<char>, tail: Seq<char>) -> bool {
    &&& s == head + t + tail
    &&& all_white_space(head)
    &&& all_white_space(tail)
    &&& t.len() > 0 ==> !is_white_space(t[0]) && !is_white_space(t[t.len() - 1])
}

/// `t` is `s` without the white space around it.
pub open spec fn is_trim_of(s: Seq<char>, t: Seq<char>) -> bool {
    exists|head: Seq<char>, tail: Seq<char>| #[trigger] trims(s, head, t, tail)
}

proof fn lemma_trim_start_splits(s: Seq<char>) -> (head: Seq<char>)
    ensures
        s == head + trim_start(s),
        all_white_space(head),
    decreases s.len(),
{
    if s.len() > 0 && is_white_space(s.first()) {
        let rest = lemma_trim_start_splits(s.drop_first());
        let head = seq![s.first()] + rest;
        assert(s =~= seq![s.first()] + s.drop_first());
        assert(s =~= head + trim_start(s));
        head
    } else {
        assert(s =~= Seq::<char>::empty() + s);
        Seq::empty()
    }
}

proof fn lemma_trim_end_splits(s: Seq<char>) -> (tail: Seq<char>)
    ensures
        s == trim_end(s) + tail,
        all_white_space(tail),
    decreases s.len(),
{
    if s.len() > 0 && is_white_space(s.last()) {
        let rest = lemma_trim_end_splits(s.drop_last());
        let tail = rest.push(s.last());
        assert(s =~= s.drop_last().push(s.last()));
        assert(s =~= trim_end(s) + tail);
        tail
    } else {
        assert(s =~= s + Seq::<char>::empty());
        Seq::empty()
    }
}

/// Every text has a trimmed text.
pub proof fn trim_takes_white_space_alone(s: Seq<char>)
    ensures
        is_trim_of(s, trimmed(s)),
{
    let head = lemma_trim_start_splits(s);
    let tail = lemma_trim_end_splits(trim_start(s));
    lemma_trim_ends(s);
    assert(s =~= head + trimmed(s) + tail);
    assert(trims(s, head, trimmed(s), tail));
}

proof fn lemma_trim_start_skips(head: Seq<char>, s: Seq<char>)
    requires
        all_white_space(head),
    ensures
        trim_start(head + s) == trim_start(s),
    decreases head.len(),
{
    if head.len() == 0 {
        assert(head + s =~= s);
    } else {
        assert(is_white_space(head[0]));
        assert((head + s).drop_first() =~= head.drop_first() + s);
        assert forall|i: int| 0 <= i < head.drop_first().len() implies is_white_space(
            #[trigger] head.drop_first()[i],
        ) by {
            assert(is_white_space(head[i + 1]));
        }
        lemma_trim_start_skips(head.drop_first(), s);
    }
}

proof fn lemma_trim_end_skips(s: Seq<char>, tail: Seq<char>)
    requires
        all_white_space(tail),
    ensures
        trim_end(s + tail) == trim_end(s),
    decreases tail.len(),
{
    if tail.len() == 0 {
        assert(s + tail =~= s);
    } else {
        assert(is_white_space(tail[tail.len() - 1]));
        assert((s + tail).drop_last() =~= s + tail.drop_last());
        lemma_trim_end_skips(s, tail.drop_last());
    }
}

/// No text has two trimmed texts.
pub proof fn trim_is_unique(s: Seq<char>, t: Seq<char>)
    requires
        is_trim_of(s, t),
    ensures
        t == trimmed(s),
{
    let (head, tail) = choose|head: Seq<char>, tail: Seq<char>| #[trigger] trims(s, head, t, tail);
    assert(s =~= head + (t + tail));
    lemma_trim_start_skips(head, t + tail);
    if t.len() == 0 {
        assert(t + tail =~= tail + t);
        lemma_trim_start_skips(tail, t);
        assert(t =~= trimmed(s));
    } else {
        assert((t + tail).first() == t[0]);
        lemma_trim_end_skips(t, tail);
    }
}

/// A text is nothing but white space exactly when nothing is left of it.
pub proof fn blank_is_white_space(s: Seq<char>)
    ensures
        all_white_space(s) <==> trimmed(s).len() == 0,
{
    if all_white_space(s) {
        assert(s =~= s + Seq::<char>::empty() + Seq::<char>::empty());
        assert(trims(s, s, Seq::empty(), Seq::empty()));
        trim_is_unique(s, Seq::empty());
    }
    if trimmed(s).len() == 0 {
        trim_takes_white_space_alone(s);
        let (head, tail) = choose|head: Seq<char>, tail: Seq<char>| #[trigger]
            trims(s, head, trimmed(s), tail);
        assert forall|i: int| 0 <= i < s.len() implies is_white_space(#[trigger] s[i]) by {
            if i < head.len() {
                assert(s[i] == head[i]);
            } else {
                assert(s[i] == tail[i - head.len()]);
            }
        }
    }
}

/// A name is saved as it was typed, character for character, but for the white
/// space around it; only a blank one is refused.
pub proof fn name_is_saved_as_typed(name: Seq<char>)
    ensures
        validated_name(name) matches Ok(t) ==> is_trim_of(name, t) && t.len() > 0,
        validated_name(name) is Err <==> all_white_space(name),
        validated_name(name) matches Err(error) ==> error.code == AppErrorCode::InvalidInput
            && error.message == "Remote connection name is required"@ && error.detail is None,
{
    trim_takes_white_space_alone(name);
    blank_is_white_space(name);
}

/// A token is saved as it was typed, character for character, but for the white
/// space around it; only a blank one is refused.
pub proof fn token_is_saved_as_typed(token: Seq<char>)
    ensures
        validated_token(token) matches Ok(t) ==> is_trim_of(token, t) && t.len() > 0,
        validated_token(token) is Err <==> all_white_space(token),
        validated_token(token) matches Err(error) ==> error.code == AppErrorCode::InvalidInput
            && error.message == "Remote connection token is required"@ && error.detail is None,
{
    trim_takes_white_space_alone(token);
    blank_is_white_space(token);
}

/// `raw` is white space, `url`, slashes and white space, in this order, where
/// `url` does not end in a slash.
pub open spec fn wraps_url(
    raw: Seq<char>,
    url: Seq<char>,
    slashes: Seq<char>,
) -> bool {
    &&& is_trim_of(raw, url + slashes)
    &&& forall|i: int| 0 <= i < slashes.len() ==> #[trigger] slashes[i] == '/'
    &&& url.len() > 0 ==> url[url.len() - 1] != '/'
}

/// `url` is what was typed, without the white space around it and without the
/// slashes at its end.
pub open spec fn is_url_of(raw: Seq<char>, url: Seq<char>) -> bool {
    exists|slashes: Seq<char>| #[trigger] wraps_url(raw, url, slashes)
}

proof fn lemma_strip_end_splits(s: Seq<char>, c: char) -> (run: Seq<char>)
    ensures
        s == strip_end(s, c) + run,
        forall|i: int| 0 <= i < run.len() ==> #[trigger] run[i] == c,
    decreases s.len(),
{
    if s.len() > 0 && s.last() == c {
        let rest = lemma_strip_end_splits(s.drop_last(), c);
        let run = rest.push(c);
        assert(s =~= s.drop_last().push(c));
        assert(s =~= strip_end(s, c) + run);
        run
    } else {
        assert(s =~= s + Seq::<char>::empty());
        Seq::empty()
    }
}

proof fn lemma_strip_end_skips(s: Seq<char>, run: Seq<char>, c: char)
    requires
        forall|i: int| 0 <= i < run.len() ==> #[trigger] run[i] == c,
        s.len() > 0 ==> s[s.len() - 1] != c,
    ensures
        strip_end(s + run, c) == s,
    decreases run.len(),
{
    if run.len() == 0 {
        assert(s + run =~= s);
    } else {
        assert(run[run.len() - 1] == c);
        assert((s + run).drop_last() =~= s + run.drop_last());
        lemma_strip_end_skips(s, run.drop_last(), c);
    }
}

/// A base URL is saved as it was typed, character for character, but for the
/// white space around it and the slashes at its end. It is saved when the URL
/// parser finds the scheme `http` or `https` in it, and refused otherwise.
pub proof fn base_url_is_saved_as_typed(raw: Seq<char>)
    ensures
        exists|url: Seq<char>| #[trigger] is_url_of(raw, url),
        normalized_base_url(raw) matches Ok(url) ==> is_url_of(raw, url),
        forall|url: Seq<char>| #[trigger]
            is_url_of(raw, url) ==> match url_scheme(url) {
                Ok(scheme) => if scheme == "http"@ || scheme == "https"@ {
                    normalized_base_url(raw) is Ok && normalized_base_url(raw)->Ok_0 == url
                } else {
                    normalized_base_url(raw) matches Err(error) && error.code
                        == AppErrorCode::InvalidInput && error.message
                        == "Remote Workspace URL must use http or https"@ && error.detail is None
                },
                Err(reason) => normalized_base_url(raw) matches Err(error) && error.code
                    == AppErrorCode::InvalidInput && error.message
                    == "Remote Workspace URL is invalid"@ && error.detail == Some(reason),
            },
{
    let url = strip_end(trimmed(raw), '/');
    let slashes = lemma_strip_end_splits(trimmed(raw), '/');
    lemma_strip_end(trimmed(raw), '/');
    trim_takes_white_space_alone(raw);
    assert(wraps_url(raw, url, slashes));
    assert(is_url_of(raw, url));
    assert forall|other: Seq<char>| #[trigger] is_url_of(raw, other) implies other == url by {
        let run = choose|run: Seq<char>| #[trigger] wraps_url(raw, other, run);
        trim_is_unique(raw, other + run);
        lemma_strip_end_skips(other, run, '/');
    }
}

/// A header goes on a request as it was typed: the value is the UTF-8 encoding
/// of the typed one without the white space around it, and decodes to it; the
/// name is the typed one without the white space around it, with its ASCII
/// capitals in lower case. It goes out exactly when these two texts can stand in
/// a request.
pub proof fn header_goes_out_as_typed(header: HeaderView, name: Seq<char>, value: Seq<char>)
    requires
        is_trim_of(header.name, name),
        is_trim_of(header.value, value),
    ensures
        pair_of(header).value == encode_utf8(value),
        decode_utf8(pair_of(header).value) == value,
        pair_of(header).name.len() == name.len(),
        forall|i: int|
            0 <= i < name.len() ==> #[trigger] pair_of(header).name[i] == if 'A' <= name[i]
                <= 'Z' {
                ((name[i] as u32) + 32) as char
            } else {
                name[i]
            },
        pair_of(header).sensitive,
        is_sendable(header) <==> is_header_name(name) && is_header_value(value),
{
    trim_is_unique(header.name, name);
    trim_is_unique(header.value, value);
    encode_utf8_decode_utf8(value);
}

/// A row with nothing but white space in it.
pub open spec fn nothing_typed(row: HeaderView) -> bool {
    all_white_space(row.name) && all_white_space(row.value)
}

/// `kept` are the rows at these places, in their order and without the white
/// space around their texts; the rows at all other places have nothing in them.
pub open spec fn keeps_at(rows: Seq<HeaderView>, kept: Seq<HeaderView>, places: Seq<int>) -> bool {
    &&& places.len() == kept.len()
    &&& forall|k: int| 0 <= k < places.len() ==> 0 <= #[trigger] places[k] < rows.len()
    &&& forall|k: int, l: int|
        0 <= k < l < places.len() ==> #[trigger] places[k] < #[trigger] places[l]
    &&& forall|k: int|
        #![trigger kept[k]]
        #![trigger places[k]]
        0 <= k < kept.len() ==> is_trim_of(rows[places[k]].name, kept[k].name) && is_trim_of(
            rows[places[k]].value,
            kept[k].value,
        )
    &&& forall|j: int|
        0 <= j < rows.len() ==> (nothing_typed(#[trigger] rows[j]) <==> !places.contains(j))
}

/// `kept` are all the rows with something in them, in their order and without
/// the white space around their texts.
pub open spec fn keeps_rows(rows: Seq<HeaderView>, kept: Seq<HeaderView>) -> bool {
    exists|places: Seq<int>| #[trigger] keeps_at(rows, kept, places)
}

proof fn lemma_kept_rows_are_kept(rows: Seq<HeaderView>) -> (places: Seq<int>)
    ensures
        keeps_at(rows, kept_rows(rows), places),
    decreases rows.len(),
{
    if rows.len() == 0 {
        reveal(Seq::filter);
        assert(kept_rows(rows) =~= rows);
        Seq::empty()
    } else {
        let rest = rows.drop_last();
        let n = rows.len() - 1;
        let last = rows[n];
        let before = lemma_kept_rows_are_kept(rest);
        lemma_kept_rows_last(rows);
        blank_is_white_space(last.name);
        blank_is_white_space(last.value);
        trim_takes_white_space_alone(last.name);
        trim_takes_white_space_alone(last.value);
        let places = if is_blank(last) {
            before
        } else {
            before.push(n)
        };
        let kept = kept_rows(rows);
        assert forall|k: int| 0 <= k < places.len() implies 0 <= #[trigger] places[k] < rows.len()
            && is_trim_of(rows[places[k]].name, kept[k].name) && is_trim_of(
            rows[places[k]].value,
            kept[k].value,
        ) by {
            if k < before.len() {
                assert(rest[before[k]] == rows[places[k]]);
                assert(kept[k] == kept_rows(rest)[k]);
            }
        }
        assert forall|j: int| 0 <= j < rows.len() implies (nothing_typed(#[trigger] rows[j])
            <==> !places.contains(j)) by {
            if j < n {
                assert(rest[j] == rows[j]);
                if before.contains(j) {
                    let k = choose|k: int| 0 <= k < before.len() && before[k] == j;
                    assert(places[k] == j);
                }
                if places.contains(j) {
                    let k = choose|k: int| 0 <= k < places.len() && places[k] == j;
                    assert(before[k] == j);
                }
            } else if is_blank(last) {
                if places.contains(n) {
                    let k = choose|k: int| 0 <= k < places.len() && places[k] == n;
                    assert(before[k] < rest.len());
                }
            } else {
                assert(places[before.len() as int] == n);
            }
        }
        places
    }
}

/// Custom headers are saved as they were typed: all rows with something in them,
/// in their order, each with the typed name and the typed value without the
/// white space around them.
pub proof fn headers_are_saved_as_typed(rows: Seq<HeaderView>)
    ensures
        validated_headers(rows) matches Ok(kept) ==> keeps_rows(rows, kept),
{
    let places = lemma_kept_rows_are_kept(rows);
}

/// A name that the client sets itself.
pub open spec fn client_sets(name: Seq<char>) -> bool {
    let lower = ascii_lower(name);
    lower == "authorization"@ || lower == "content-type"@ || lower == "content-length"@ || lower
        == "transfer-encoding"@ || lower == "host"@ || lower == "connection"@ || lower
        == "upgrade"@ || lower == "sec-websocket-key"@ || lower == "sec-websocket-version"@
        || lower == "sec-websocket-protocol"@ || lower == "sec-websocket-extensions"@
}

/// Rows can be saved exactly when each of them is blank, or has a name that can
/// go on a request and that the client does not set itself, and a value that can
/// go on a request.
pub proof fn headers_are_refused_for_cause(rows: Seq<HeaderView>)
    ensures
        validated_headers(rows) is Ok <==> forall|j: int, name: Seq<char>, value: Seq<char>|
            0 <= j < rows.len() && #[trigger] is_trim_of(rows[j].name, name)
                && #[trigger] is_trim_of(rows[j].value, value) ==> (name.len() == 0 && value.len()
                == 0) || (is_header_name(name) && !client_sets(name) && is_header_value(value)),
{
    lemma_first_row_error_none(rows);
    if first_row_error(rows) is None {
        assert forall|j: int, name: Seq<char>, value: Seq<char>|
            0 <= j < rows.len() && #[trigger] is_trim_of(rows[j].name, name)
                && #[trigger] is_trim_of(rows[j].value, value) implies (name.len() == 0
            && value.len() == 0) || (is_header_name(name) && !client_sets(name)
            && is_header_value(value)) by {
            trim_is_unique(rows[j].name, name);
            trim_is_unique(rows[j].value, value);
            assert(row_error(rows[j]) is None);
        }
    } else {
        let j = choose|j: int| 0 <= j < rows.len() && row_error(#[trigger] rows[j]) is Some;
        trim_takes_white_space_alone(rows[j].name);
        trim_takes_white_space_alone(rows[j].value);
        assert(is_trim_of(rows[j].name, trimmed(rows[j].name)) && is_trim_of(
            rows[j].value,
            trimmed(rows[j].value),
        ));
    }
}

/// The first row that cannot be saved is the one that is reported, with its name
/// and with the reason.
pub proof fn first_bad_header_is_reported(
    rows: Seq<HeaderView>,
    j: int,
    name: Seq<char>,
    value: Seq<char>,
)
    requires
        0 <= j < rows.len(),
        validated_headers(rows.take(j)) is Ok,
        validated_headers(rows.take(j + 1)) is Err,
        is_trim_of(rows[j].name, name),
        is_trim_of(rows[j].value, value),
    ensures
        validated_headers(rows) == validated_headers(rows.take(j + 1)),
        validated_headers(rows) is Err,
        validated_headers(rows)->Err_0.code == AppErrorCode::InvalidInput,
        name.len() == 0 ==> validated_headers(rows)->Err_0.message
            == "Custom header name is required"@ && validated_headers(rows)->Err_0.detail is None,
        name.len() > 0 && client_sets(name) ==> validated_headers(rows)->Err_0.message
            == "Custom header \""@ + name + "\" is reserved by Codeg"@ && validated_headers(
            rows,
        )->Err_0.detail is None,
        name.len() > 0 && !client_sets(name) ==> validated_headers(rows)->Err_0.message
            == "Custom header \""@ + name + "\" is invalid"@ && validated_headers(
            rows,
        )->Err_0.detail == Some(
            if !is_header_name(name) {
                "invalid HTTP header name"@
            } else {
                "failed to parse header value"@
            },
        ),
{
    let good = rows.take(j);
    let bad = rows.take(j + 1);
    lemma_first_row_error_none(good);
    lemma_first_row_error_none(bad);
    assert forall|i: int| 0 <= i < j implies row_error(#[trigger] rows[i]) is None
        && row_error(bad[i]) is None by {
        assert(good[i] == rows[i]);
        assert(bad[i] == rows[i]);
    }
    let i = choose|i: int| 0 <= i < bad.len() && row_error(#[trigger] bad[i]) is Some;
    assert(i == j);
    assert(bad[j] == rows[j]);
    lemma_first_row_error_at(rows, j);
    lemma_first_row_error_at(bad, j);
    trim_is_unique(rows[j].name, name);
    trim_is_unique(rows[j].value, value);
}

/// `values` are what the rows at these places give for a name, in their order,
/// and no other row gives anything for it: the name of such a row is this one, in
/// whatever case, and its value is the UTF-8 encoding of the typed value without
/// the white space around it.
pub open spec fn fills_at(
    rows: Seq<HeaderView>,
    name: Seq<char>,
    values: Seq<(Seq<u8>, bool)>,
    places: Seq<int>,
) -> bool {
    &&& places.len() == values.len()
    &&& forall|k: int| 0 <= k < places.len() ==> 0 <= #[trigger] places[k] < rows.len()
    &&& forall|k: int, l: int|
        0 <= k < l < places.len() ==> #[trigger] places[k] < #[trigger] places[l]
    &&& forall|k: int, value: Seq<char>|
        0 <= k < places.len() && #[trigger] is_trim_of(rows[places[k]].value, value) ==> values[k]
            == (encode_utf8(value), true)
    &&& forall|j: int, n: Seq<char>, v: Seq<char>|
        0 <= j < rows.len() && #[trigger] is_trim_of(rows[j].name, n) && #[trigger] is_trim_of(
            rows[j].value,
            v,
        ) ==> (places.contains(j) <==> is_header_name(n) && is_header_value(v) && ascii_lower(n)
            == name)
}

/// What stands under a name; nothing where it does not occur.
pub open spec fn values_under(
    headers: Map<Seq<char>, Seq<(Seq<u8>, bool)>>,
    name: Seq<char>,
) -> Seq<(Seq<u8>, bool)> {
    if headers.dom().contains(name) {
        headers[name]
    } else {
        seq![]
    }
}

proof fn lemma_header_map_filled(rows: Seq<HeaderView>, name: Seq<char>) -> (places: Seq<int>)
    ensures
        fills_at(rows, name, values_under(header_map_of(rows), name), places),
        header_map_of(rows).dom().contains(name) ==> places.len() > 0,
    decreases rows.len(),
{
    if rows.len() == 0 {
        Seq::empty()
    } else {
        let rest = rows.drop_last();
        let n = rows.len() - 1;
        let last = rows[n];
        let before = lemma_header_map_filled(rest, name);
        let goes = is_sendable(last) && pair_of(last).name == name;
        let places = if goes {
            before.push(n)
        } else {
            before
        };
        let values = values_under(header_map_of(rows), name);
        let old_values = values_under(header_map_of(rest), name);
        if goes {
            assert(values =~= old_values.push((pair_of(last).value, true)));
        } else {
            assert(values =~= old_values);
        }
        assert forall|k: int, value: Seq<char>|
            0 <= k < places.len() && #[trigger] is_trim_of(
                rows[places[k]].value,
                value,
            ) implies values[k] == (encode_utf8(value), true) by {
            if k < before.len() {
                assert(rest[before[k]] == rows[places[k]]);
                assert(is_trim_of(rest[before[k]].value, value));
                assert(values[k] == old_values[k]);
            } else {
                trim_is_unique(last.value, value);
            }
        }
        assert forall|j: int, nm: Seq<char>, v: Seq<char>|
            0 <= j < rows.len() && #[trigger] is_trim_of(rows[j].name, nm)
                && #[trigger] is_trim_of(rows[j].value, v) implies (places.contains(j)
            <==> is_header_name(nm) && is_header_value(v) && ascii_lower(nm) == name) by {
            if j < n {
                assert(rest[j] == rows[j]);
                assert(is_trim_of(rest[j].name, nm) && is_trim_of(rest[j].value, v));
                if before.contains(j) {
                    let k = choose|k: int| 0 <= k < before.len() && before[k] == j;
                    assert(places[k] == j);
                }
                if places.contains(j) {
                    let k = choose|k: int| 0 <= k < places.len() && places[k] == j;
                    assert(before[k] == j);
                }
            } else {
                trim_is_unique(last.name, nm);
                trim_is_unique(last.value, v);
                if goes {
                    assert(places[before.len() as int] == n);
                } else if places.contains(n) {
                    let k = choose|k: int| 0 <= k < places.len() && places[k] == n;
                    assert(before[k] < rest.len());
                }
            }
        }
        places
    }
}

/// The headers of a request are what was typed: under each name, in lower case,
/// stand the values of all rows with this name that can go on a request, in the
/// order of the rows, and nothing else.
pub proof fn headers_go_out_as_typed(rows: Seq<HeaderView>, name: Seq<char>)
    ensures
        exists|places: Seq<int>| #[trigger]
            fills_at(rows, name, values_under(header_map_of(rows), name), places) && (
            header_map_of(rows).dom().contains(name) <==> places.len() > 0),
{
    let places = lemma_header_map_filled(rows, name);
    assert(fills_at(rows, name, values_under(header_map_of(rows), name), places));
}

} // verus!
