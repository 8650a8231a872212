//! The rules for what a user may save as a connection.

use vstd::prelude::*;

use crate::app_error::{
    detailed_error, plain_error, text_result, AppCommandError, AppErrorCode, AppErrorView,
};
use crate::header::{
    header_map_has_a_value_for_each_sendable_row, header_map_keeps_repeats_in_order, header_map_of,
    header_rows, is_sendable, pair_error_text, pair_of, value_count, values_named, HeaderView,
    RemoteWorkspaceHeader,
};
use crate::text::{
    ascii_lower, is_white_space, join3, lemma_strip_end, lemma_trim_ends, lemma_trim_idempotent,
    same_text, strip_end, trim_end_char, trimmed,
};

verus! {

/// The header names, in lower case, that the client sets itself on its HTTP
/// calls and on the WebSocket handshake. `transfer-encoding` is one of them
/// because the body of a request is framed on this side.
pub open spec fn is_reserved_name(name: Seq<char>) -> bool {
    ||| name == "authorization"@
    ||| name == "content-type"@
    ||| name == "content-length"@
    ||| name == "transfer-encoding"@
    ||| name == "host"@
    ||| name == "connection"@
    ||| name == "upgrade"@
    ||| name == "sec-websocket-key"@
    ||| name == "sec-websocket-version"@
    ||| name == "sec-websocket-protocol"@
    ||| name == "sec-websocket-extensions"@
}

fn is_reserved(name: &str) -> (r: bool)
    ensures
        r == is_reserved_name(name@),
{
    same_text(name, "authorization") || same_text(name, "content-type") || same_text(
        name,
        "content-length",
    ) || same_text(name, "transfer-encoding") || same_text(name, "host") || same_text(
        name,
        "connection",
    ) || same_text(name, "upgrade") || same_text(name, "sec-websocket-key") || same_text(
        name,
        "sec-websocket-version",
    ) || same_text(name, "sec-websocket-protocol") || same_text(name, "sec-websocket-extensions")
}

/// A row that the user left empty.
pub open spec fn is_blank(row: HeaderView) -> bool {
    trimmed(row.name).len() == 0 && trimmed(row.value).len() == 0
}

/// The row without white space around its texts.
pub open spec fn trimmed_row(row: HeaderView) -> HeaderView {
    HeaderView { name: trimmed(row.name), value: trimmed(row.value) }
}

/// An input that is refused with this message.
pub open spec fn refused(message: Seq<char>) -> AppErrorView {
    plain_error(AppErrorCode::InvalidInput, message)
}

/// Why a row cannot be saved; `None` where it can, or where it is blank.
pub open spec fn row_error(row: HeaderView) -> Option<AppErrorView> {
    let name = trimmed(row.name);
    if is_blank(row) {
        None
    } else if name.len() == 0 {
        Some(refused("Custom header name is required"@))
    } else if is_reserved_name(ascii_lower(name)) {
        Some(refused("Custom header \""@ + name + "\" is reserved by Codeg"@))
    } else if !is_sendable(row) {
        Some(
            detailed_error(
                AppErrorCode::InvalidInput,
                "Custom header \""@ + name + "\" is invalid"@,
                pair_error_text(row),
            ),
        )
    } else {
        None
    }
}

/// The error of the first row that has one.
pub open spec fn first_row_error(rows: Seq<HeaderView>) -> Option<AppErrorView>
    decreases rows.len(),
{
    if rows.len() == 0 {
        None
    } else if row_error(rows.first()) is Some {
        row_error(rows.first())
    } else {
        first_row_error(rows.drop_first())
    }
}

/// The rows that are not blank, trimmed, in their order.
pub open spec fn kept_rows(rows: Seq<HeaderView>) -> Seq<HeaderView> {
    rows.filter(|row: HeaderView| !is_blank(row)).map_values(|row: HeaderView| trimmed_row(row))
}

/// What saving these rows comes to.
pub open spec fn validated_headers(rows: Seq<HeaderView>) -> Result<
    Seq<HeaderView>,
    AppErrorView,
> {
    match first_row_error(rows) {
        Some(error) => Err(error),
        None => Ok(kept_rows(rows)),
    }
}

/// What a result with headers in it says.
pub open spec fn rows_result(r: Result<Vec<RemoteWorkspaceHeader>, AppCommandError>) -> Result<
    Seq<HeaderView>,
    AppErrorView,
> {
    match r {
        Ok(headers) => Ok(header_rows(headers@)),
        Err(error) => Err(error@),
    }
}

/// No row has an error exactly when there is no first one.
pub proof fn lemma_first_row_error_none(rows: Seq<HeaderView>)
    ensures
        first_row_error(rows) is None <==> forall|i: int|
            0 <= i < rows.len() ==> row_error(#[trigger] rows[i]) is None,
    decreases rows.len(),
{
    if rows.len() > 0 {
        let rest = rows.drop_first();
        lemma_first_row_error_none(rest);
        if row_error(rows.first()) is None {
            if first_row_error(rest) is None {
                assert forall|i: int| 0 <= i < rows.len() implies row_error(
                    #[trigger] rows[i],
                ) is None by {
                    if i > 0 {
                        assert(rest[i - 1] == rows[i]);
                    }
                }
            } else {
                let i = choose|i: int| 0 <= i < rest.len() && row_error(#[trigger] rest[i]) is Some;
                assert(rows[i + 1] == rest[i]);
            }
        } else {
            assert(rows[0] == rows.first());
        }
    }
}

/// A row with an error behind rows without one is the first.
pub proof fn lemma_first_row_error_at(rows: Seq<HeaderView>, n: int)
    requires
        0 <= n < rows.len(),
        row_error(rows[n]) is Some,
        forall|i: int| 0 <= i < n ==> row_error(#[trigger] rows[i]) is None,
    ensures
        first_row_error(rows) == row_error(rows[n]),
    decreases n,
{
    if n > 0 {
        assert(row_error(rows[0]) is None);
        let rest = rows.drop_first();
        assert forall|i: int| 0 <= i < n - 1 implies row_error(#[trigger] rest[i]) is None by {
            assert(rest[i] == rows[i + 1]);
        }
        lemma_first_row_error_at(rest, n - 1);
    }
}

proof fn lemma_kept_rows_push(rows: Seq<HeaderView>, n: int)
    requires
        0 <= n < rows.len(),
    ensures
        kept_rows(rows.take(n + 1)) == if is_blank(rows[n]) {
            kept_rows(rows.take(n))
        } else {
            kept_rows(rows.take(n)).push(trimmed_row(rows[n]))
        },
{
    reveal(Seq::filter);
    assert(rows.take(n + 1).drop_last() =~= rows.take(n));
    assert(rows.take(n + 1).last() == rows[n]);
    let keep = |row: HeaderView| !is_blank(row);
    if !is_blank(rows[n]) {
        assert(kept_rows(rows.take(n + 1)) =~= kept_rows(rows.take(n)).push(trimmed_row(rows[n])));
    }
}

/// Checks one row: the trimmed row to save, or nothing where it is blank.
fn validate_row(header: &RemoteWorkspaceHeader) -> (r: Result<
    Option<RemoteWorkspaceHeader>,
    AppCommandError,
>)
    ensures
        match r {
            Ok(None) => is_blank(header@),
            Ok(Some(row)) => !is_blank(header@) && row_error(header@) is None && row@
                == trimmed_row(header@),
            Err(error) => row_error(header@) == Some(error@),
        },
{
    let name = header.name.as_str().trim();
    let value = header.value.as_str().trim();
    if name.is_empty() && value.is_empty() {
        return Ok(None);
    }
    if name.is_empty() {
        return Err(AppCommandError::invalid_input("Custom header name is required"));
    }
    if is_reserved(name.to_ascii_lowercase().as_str()) {
        let message = join3("Custom header \"", name, "\" is reserved by Codeg");
        return Err(AppCommandError::invalid_input(message.as_str()));
    }
    if let Err(error) = header.to_header_pair() {
        let message = join3("Custom header \"", name, "\" is invalid");
        return Err(
            AppCommandError::invalid_input(message.as_str()).with_detail(error.into_text()),
        );
    }
    Ok(Some(RemoteWorkspaceHeader { name: name.to_owned(), value: value.to_owned() }))
}

/// Checks the custom headers of a connection and gives back those to save:
/// trimmed, in their order, without the blank rows. The first row that cannot
/// be saved is the one reported.
pub fn validate_headers(headers: &[RemoteWorkspaceHeader]) -> (r: Result<
    Vec<RemoteWorkspaceHeader>,
    AppCommandError,
>)
    ensures
        rows_result(r) == validated_headers(header_rows(headers@)),
{
    let ghost rows = header_rows(headers@);
    let mut result: Vec<RemoteWorkspaceHeader> = Vec::with_capacity(headers.len());
    proof {
        reveal(Seq::filter);
        assert(rows.take(0) =~= seq![]);
        assert(header_rows(result@) =~= kept_rows(rows.take(0)));
    }
    for i in 0..headers.len()
        invariant
            rows == header_rows(headers@),
            forall|j: int| 0 <= j < i ==> row_error(#[trigger] rows[j]) is None,
            header_rows(result@) == kept_rows(rows.take(i as int)),
    {
        proof {
            assert(rows[i as int] == headers@[i as int]@);
            lemma_kept_rows_push(rows, i as int);
            if row_error(rows[i as int]) is Some {
                lemma_first_row_error_at(rows, i as int);
            }
        }
        let ghost before = result@;
        match validate_row(&headers[i]) {
            Ok(None) => {},
            Ok(Some(row)) => {
                result.push(row);
                proof {
                    assert(header_rows(result@) =~= header_rows(before).push(row@));
                }
            },
            Err(error) => {
                return Err(error);
            },
        }
    }
    proof {
        assert(rows.take(rows.len() as int) =~= rows);
        lemma_first_row_error_none(rows);
    }
    Ok(result)
}

/// What the URL parser makes of a text: the scheme of the URL, or why the text
/// is not one.
pub uninterp spec fn url_scheme(text: Seq<char>) -> Result<Seq<char>, Seq<char>>;

/// The texts of a result.
pub open spec fn texts(r: Result<String, String>) -> Result<Seq<char>, Seq<char>> {
    match r {
        Ok(text) => Ok(text@),
        Err(text) => Err(text@),
    }
}

/// `reqwest::Url::parse` on this text, reduced to the scheme of the URL or the
/// text of the error. Both depend on the text alone.
#[verifier::external_body]
fn parse_url_scheme(text: &str) -> (r: Result<String, String>)
    ensures
        texts(r) == url_scheme(text@),
{
    match reqwest::Url::parse(text) {
        Ok(url) => Ok(url.scheme().to_owned()),
        Err(error) => Err(error.to_string()),
    }
}

/// The part of the typed text that counts: no white space around it, then no
/// slashes at its end.
pub open spec fn base_url_text(raw: Seq<char>) -> Seq<char> {
    strip_end(trimmed(raw), '/')
}

/// What becomes of a base URL for which the URL parser gives `scheme`.
pub open spec fn accepted_base_url(
    text: Seq<char>,
    scheme: Result<Seq<char>, Seq<char>>,
) -> Result<Seq<char>, AppErrorView> {
    match scheme {
        Ok(scheme) => if scheme == "http"@ || scheme == "https"@ {
            Ok(text)
        } else {
            Err(refused("Remote Workspace URL must use http or https"@))
        },
        Err(error) => Err(
            detailed_error(
                AppErrorCode::InvalidInput,
                "Remote Workspace URL is invalid"@,
                error,
            ),
        ),
    }
}

/// What saving this base URL comes to.
pub open spec fn normalized_base_url(raw: Seq<char>) -> Result<Seq<char>, AppErrorView> {
    accepted_base_url(base_url_text(raw), url_scheme(base_url_text(raw)))
}

/// What becomes of the base URL `text` for which the URL parser gave `scheme`,
/// or an error in words: only `http` and `https` are accepted.
pub fn accept_base_url(text: String, scheme: Result<String, String>) -> (r: Result<
    String,
    AppCommandError,
>)
    ensures
        text_result(r) == accepted_base_url(text@, texts(scheme)),
{
    match scheme {
        Ok(scheme) => {
            if same_text(scheme.as_str(), "http") || same_text(scheme.as_str(), "https") {
                Ok(text)
            } else {
                Err(AppCommandError::invalid_input("Remote Workspace URL must use http or https"))
            }
        },
        Err(error) => Err(
            AppCommandError::invalid_input("Remote Workspace URL is invalid").with_detail(error),
        ),
    }
}

/// Checks a base URL and gives back the text to save.
pub fn normalize_base_url(raw: &str) -> (r: Result<String, AppCommandError>)
    ensures
        text_result(r) == normalized_base_url(raw@),
{
    let text: String = trim_end_char(raw.trim(), '/').to_owned();
    let scheme = parse_url_scheme(text.as_str());
    accept_base_url(text, scheme)
}

/// What saving a text comes to that must not be blank: the text without white
/// space around it, or the refusal with this message.
pub open spec fn required_text(text: Seq<char>, message: Seq<char>) -> Result<
    Seq<char>,
    AppErrorView,
> {
    if trimmed(text).len() == 0 {
        Err(refused(message))
    } else {
        Ok(trimmed(text))
    }
}

/// What saving this name comes to.
pub open spec fn validated_name(name: Seq<char>) -> Result<Seq<char>, AppErrorView> {
    required_text(name, "Remote connection name is required"@)
}

/// What saving this token comes to.
pub open spec fn validated_token(token: Seq<char>) -> Result<Seq<char>, AppErrorView> {
    required_text(token, "Remote connection token is required"@)
}

/// Checks the name of a connection and gives back the text to save.
pub fn validate_name(name: &str) -> (r: Result<String, AppCommandError>)
    ensures
        text_result(r) == validated_name(name@),
{
    let text = name.trim();
    if text.is_empty() {
        return Err(AppCommandError::invalid_input("Remote connection name is required"));
    }
    Ok(text.to_owned())
}

/// Checks the token of a connection and gives back the text to save.
pub fn validate_token(token: &str) -> (r: Result<String, AppCommandError>)
    ensures
        text_result(r) == validated_token(token@),
{
    let text = token.trim();
    if text.is_empty() {
        return Err(AppCommandError::invalid_input("Remote connection token is required"));
    }
    Ok(text.to_owned())
}

/// A row of the kept ones is a trimmed row that was not blank.
proof fn lemma_kept_row(rows: Seq<HeaderView>, i: int)
    requires
        0 <= i < kept_rows(rows).len(),
    ensures
        exists|j: int|
            0 <= j < rows.len() && !is_blank(#[trigger] rows[j]) && kept_rows(rows)[i]
                == trimmed_row(rows[j]),
{
    let keep = |row: HeaderView| !is_blank(row);
    let row = rows.filter(keep)[i];
    rows.lemma_filter_pred(keep, i);
    rows.lemma_filter_contains_rev(keep, row);
    let j = choose|j: int| 0 <= j < rows.len() && rows[j] == row;
    assert(!is_blank(rows[j]) && kept_rows(rows)[i] == trimmed_row(rows[j]));
}

/// A filter that every row passes drops nothing.
proof fn lemma_all_kept(rows: Seq<HeaderView>, keep: spec_fn(HeaderView) -> bool)
    requires
        forall|i: int| 0 <= i < rows.len() ==> keep(#[trigger] rows[i]),
    ensures
        rows.filter(keep) == rows,
    decreases rows.len(),
{
    reveal(Seq::filter);
    if rows.len() > 0 {
        lemma_all_kept(rows.drop_last(), keep);
        assert(keep(rows[rows.len() - 1]));
        assert(rows.drop_last().push(rows.last()) =~= rows);
    }
}

/// A trimmed row is judged as the row it comes from.
proof fn lemma_trimmed_row(row: HeaderView)
    ensures
        trimmed_row(trimmed_row(row)) == trimmed_row(row),
        is_blank(trimmed_row(row)) == is_blank(row),
        is_sendable(trimmed_row(row)) == is_sendable(row),
        row_error(trimmed_row(row)) == row_error(row),
{
    lemma_trim_idempotent(row.name);
    lemma_trim_idempotent(row.value);
}

/// Every row that is saved can go on a request, none is blank and none has a
/// name, in whatever case, that the client sets itself.
pub proof fn validated_headers_are_sendable(rows: Seq<HeaderView>, i: int)
    requires
        validated_headers(rows) is Ok,
        0 <= i < validated_headers(rows)->Ok_0.len(),
    ensures
        is_sendable(validated_headers(rows)->Ok_0[i]),
        !is_blank(validated_headers(rows)->Ok_0[i]),
        !is_reserved_name(ascii_lower(validated_headers(rows)->Ok_0[i].name)),
{
    lemma_first_row_error_none(rows);
    lemma_kept_row(rows, i);
    let j = choose|j: int|
        0 <= j < rows.len() && !is_blank(#[trigger] rows[j]) && kept_rows(rows)[i] == trimmed_row(
            rows[j],
        );
    assert(row_error(rows[j]) is None);
    lemma_trimmed_row(rows[j]);
}

/// Nothing that the user typed is dropped in silence: when rows can be saved,
/// each of them that is not blank goes on a request, under its name and with its
/// value.
pub proof fn saved_headers_all_go_out(rows: Seq<HeaderView>, j: int)
    requires
        validated_headers(rows) is Ok,
        0 <= j < rows.len(),
        !is_blank(rows[j]),
    ensures
        header_map_of(validated_headers(rows)->Ok_0).dom().contains(pair_of(rows[j]).name),
        header_map_of(validated_headers(rows)->Ok_0)[pair_of(rows[j]).name].contains(
            (pair_of(rows[j]).value, true),
        ),
{
    let kept = kept_rows(rows);
    let row = trimmed_row(rows[j]);
    let name = pair_of(rows[j]).name;
    lemma_first_row_error_none(rows);
    lemma_trimmed_row(rows[j]);
    lemma_trim_idempotent(rows[j].name);
    lemma_trim_idempotent(rows[j].value);
    assert(row_error(rows[j]) is None);

    let keep = |row: HeaderView| !is_blank(row);
    rows.lemma_filter_contains(keep, j);
    let k = choose|k: int| 0 <= k < rows.filter(keep).len() && rows.filter(keep)[k] == rows[j];
    assert(kept[k] == row);

    let named = |row: HeaderView| is_sendable(row) && pair_of(row).name == name;
    kept.lemma_filter_contains(named, k);
    let i = choose|i: int| 0 <= i < kept.filter(named).len() && kept.filter(named)[i] == kept[k];
    assert(values_named(kept, name)[i] == (pair_of(row).value, true));
    header_map_keeps_repeats_in_order(kept, name);
}

/// The kept rows with one more row.
pub proof fn lemma_kept_rows_last(rows: Seq<HeaderView>)
    requires
        rows.len() > 0,
    ensures
        kept_rows(rows) == if is_blank(rows.last()) {
            kept_rows(rows.drop_last())
        } else {
            kept_rows(rows.drop_last()).push(trimmed_row(rows.last()))
        },
{
    let n = rows.len() - 1;
    lemma_kept_rows_push(rows, n);
    assert(rows.take(n + 1) =~= rows);
    assert(rows.take(n) =~= rows.drop_last());
}

/// Rows without an error go out as their kept rows do.
proof fn lemma_kept_rows_go_out_the_same(rows: Seq<HeaderView>)
    requires
        forall|i: int| 0 <= i < rows.len() ==> row_error(#[trigger] rows[i]) is None,
    ensures
        header_map_of(kept_rows(rows)) == header_map_of(rows),
    decreases rows.len(),
{
    if rows.len() == 0 {
        reveal(Seq::filter);
        assert(kept_rows(rows) =~= rows);
    } else {
        let rest = rows.drop_last();
        let last = rows.last();
        lemma_kept_rows_go_out_the_same(rest);
        lemma_kept_rows_last(rows);
        assert(row_error(rows[rows.len() - 1]) is None);
        if !is_blank(last) {
            lemma_trimmed_row(last);
            lemma_trim_idempotent(last.name);
            lemma_trim_idempotent(last.value);
            let kept = kept_rows(rest).push(trimmed_row(last));
            assert(kept.drop_last() =~= kept_rows(rest));
        }
    }
}

/// What the user typed goes out as what was saved of it: rows that can be saved
/// give the same headers, before and after they are checked. There is one value
/// for each saved row, and no name that the client sets itself.
pub proof fn saved_headers_go_out_as_typed(rows: Seq<HeaderView>)
    requires
        validated_headers(rows) is Ok,
    ensures
        header_map_of(validated_headers(rows)->Ok_0) == header_map_of(rows),
        value_count(header_map_of(rows)) == validated_headers(rows)->Ok_0.len(),
        forall|name: Seq<char>| #[trigger]
            header_map_of(rows).dom().contains(name) ==> !is_reserved_name(name),
{
    let kept = kept_rows(rows);
    lemma_first_row_error_none(rows);
    lemma_kept_rows_go_out_the_same(rows);
    header_map_has_a_value_for_each_sendable_row(kept);
    assert forall|i: int| 0 <= i < kept.len() implies is_sendable(#[trigger] kept[i])
        && !is_reserved_name(ascii_lower(trimmed(kept[i].name))) by {
        validated_headers_are_sendable(rows, i);
        lemma_kept_row(rows, i);
        let j = choose|j: int|
            0 <= j < rows.len() && !is_blank(#[trigger] rows[j]) && kept[i] == trimmed_row(rows[j]);
        lemma_trim_idempotent(rows[j].name);
    }
    lemma_all_kept(kept, |row: HeaderView| is_sendable(row));
    assert forall|name: Seq<char>| #[trigger]
        header_map_of(rows).dom().contains(name) implies !is_reserved_name(name) by {
        header_map_keeps_repeats_in_order(kept, name);
        let named = |row: HeaderView| is_sendable(row) && pair_of(row).name == name;
        let row = kept.filter(named)[0];
        kept.lemma_filter_pred(named, 0);
        kept.lemma_filter_contains_rev(named, row);
        let i = choose|i: int| 0 <= i < kept.len() && kept[i] == row;
        assert(is_sendable(kept[i]));
    }
}

/// Saving what was saved changes nothing: the rows that validation gives back
/// are valid, and validation gives them back again.
pub proof fn validated_headers_stay_valid(rows: Seq<HeaderView>)
    requires
        validated_headers(rows) is Ok,
    ensures
        validated_headers(validated_headers(rows)->Ok_0) == validated_headers(rows),
{
    let kept = kept_rows(rows);
    lemma_first_row_error_none(rows);
    assert forall|i: int| 0 <= i < kept.len() implies row_error(#[trigger] kept[i]) is None
        && !is_blank(kept[i]) && trimmed_row(kept[i]) == kept[i] by {
        lemma_kept_row(rows, i);
        let j = choose|j: int|
            0 <= j < rows.len() && !is_blank(#[trigger] rows[j]) && kept[i] == trimmed_row(rows[j]);
        assert(row_error(rows[j]) is None);
        lemma_trimmed_row(rows[j]);
    }
    lemma_first_row_error_none(kept);
    lemma_all_kept(kept, |row: HeaderView| !is_blank(row));
    assert(kept_rows(kept) =~= kept);
}

/// A saved base URL does not end in a slash, the URL parser accepts it, and its
/// scheme is `http` or `https`.
pub proof fn normalized_base_url_is_clean(raw: Seq<char>)
    requires
        normalized_base_url(raw) is Ok,
    ensures
        normalized_base_url(raw)->Ok_0.len() > 0 ==> normalized_base_url(raw)->Ok_0.last() != '/',
        url_scheme(normalized_base_url(raw)->Ok_0) == Ok::<Seq<char>, Seq<char>>("http"@)
            || url_scheme(normalized_base_url(raw)->Ok_0) == Ok::<Seq<char>, Seq<char>>("https"@),
{
    lemma_strip_end(trimmed(raw), '/');
}

/// Saving a saved base URL changes nothing, unless white space stood in front
/// of the slashes that were cut from its end.
pub proof fn normalized_base_url_stays(raw: Seq<char>)
    requires
        normalized_base_url(raw) is Ok,
        normalized_base_url(raw)->Ok_0.len() > 0 ==> !is_white_space(
            normalized_base_url(raw)->Ok_0.last(),
        ),
    ensures
        normalized_base_url(normalized_base_url(raw)->Ok_0) == normalized_base_url(raw),
{
    let text = base_url_text(raw);
    lemma_trim_ends(raw);
    lemma_strip_end(trimmed(raw), '/');
    assert(trimmed(text) == text);
}

/// Saving a saved name or token changes nothing.
pub proof fn required_text_stays(text: Seq<char>, message: Seq<char>)
    requires
        required_text(text, message) is Ok,
    ensures
        required_text(required_text(text, message)->Ok_0, message) == required_text(text, message),
{
    lemma_trim_idempotent(text);
}

} // verus!
