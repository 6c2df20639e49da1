//! The header fields of a message, held in `hyper::HeaderMap`.
//!
//! The proxy reads and fills header maps through the functions of this module. A field has a name,
//! which is text, and a value, which is its bytes together with the mark that the map keeps on
//! values that should not be shown. What a map holds is passed on as it is, whatever its bytes.

use hyper::header::{HeaderName, HeaderValue};
use hyper::HeaderMap;
use vstd::prelude::*;
use vstd::utf8;

verus! {

/// The header map of the `http` crate, which `hyper` hands out.
#[verifier::external_type_specification]
#[verifier::external_body]
#[verifier::reject_recursive_types(T)]
pub struct ExHeaderMap<T>(HeaderMap<T>);

/// A field name as the `http` crate stores it inside a header map.
#[verifier::external_type_specification]
#[verifier::external_body]
pub struct ExHeaderName(HeaderName);

/// A field value as the `http` crate stores it inside a header map.
#[verifier::external_type_specification]
#[verifier::external_body]
pub struct ExHeaderValue(HeaderValue);

/// What a header map holds: under each field name the values given for it, in the order in
/// which they were added, each as its bytes and whether it is marked sensitive.
pub uninterp spec fn header_contents(headers: HeaderMap<HeaderValue>) -> Map<
    Seq<char>,
    Seq<(Seq<u8>, bool)>,
>;

/// The text of a field name.
pub uninterp spec fn name_text(name: HeaderName) -> Seq<char>;

/// What a field value holds: its bytes, and whether it is marked sensitive.
pub uninterp spec fn value_contents(value: HeaderValue) -> (Seq<u8>, bool);

/// As long as a map holds no more names than this, adding to it cannot exceed its capacity,
/// however its names hash.
pub const NAME_LIMIT: usize = 6553;

/// Whether `ch` may stand in a field name in lower case: a token character other than an upper case
/// letter.
pub open spec fn is_name_char(ch: char) -> bool {
    ||| 'a' <= ch && ch <= 'z'
    ||| '0' <= ch && ch <= '9'
    ||| ch == '!' || ch == '#' || ch == '$' || ch == '%' || ch == '&' || ch == '\'' || ch == '*'
    ||| ch == '+' || ch == '-' || ch == '.' || ch == '^' || ch == '_' || ch == '`' || ch == '|'
    ||| ch == '~'
}

/// Whether `name` is a field name in lower case.
pub open spec fn is_field_name(name: Seq<char>) -> bool {
    0 < name.len() <= 65535 && forall|i: int|
        0 <= i < name.len() ==> is_name_char(#[trigger] name[i])
}

/// Whether every byte is a visible ASCII character, a space or a tab.
pub open spec fn is_visible(bytes: Seq<u8>) -> bool {
    forall|i: int|
        0 <= i < bytes.len() ==> (32 <= #[trigger] bytes[i] && bytes[i] < 127 || bytes[i] == 9)
}

/// The text of ASCII bytes.
pub open spec fn ascii_text(bytes: Seq<u8>) -> Seq<char> {
    bytes.map_values(|byte: u8| byte as char)
}

/// The values under `name`, none where the map does not hold it.
pub open spec fn values_of(
    contents: Map<Seq<char>, Seq<(Seq<u8>, bool)>>,
    name: Seq<char>,
) -> Seq<(Seq<u8>, bool)> {
    if contents.contains_key(name) {
        contents[name]
    } else {
        seq![]
    }
}

/// The map after one more value for `name`, behind those it has.
pub open spec fn with_appended(
    contents: Map<Seq<char>, Seq<(Seq<u8>, bool)>>,
    name: Seq<char>,
    value: (Seq<u8>, bool),
) -> Map<Seq<char>, Seq<(Seq<u8>, bool)>> {
    contents.insert(name, values_of(contents, name).push(value))
}

/// Whether `order` names each member of `names` once and nothing else.
pub open spec fn lists(order: Seq<Seq<char>>, names: Set<Seq<char>>) -> bool {
    order.no_duplicates() && order.to_set() == names
}

/// Each value paired with the name it stands under.
pub open spec fn named(name: Seq<char>, values: Seq<(Seq<u8>, bool)>) -> Seq<
    (Seq<char>, (Seq<u8>, bool)),
> {
    values.map_values(|value: (Seq<u8>, bool)| (name, value))
}

/// The fields of a map name by name in the given order, each name with all its values.
pub open spec fn listing(
    order: Seq<Seq<char>>,
    contents: Map<Seq<char>, Seq<(Seq<u8>, bool)>>,
) -> Seq<(Seq<char>, (Seq<u8>, bool))>
    decreases order.len(),
{
    if order.len() == 0 {
        seq![]
    } else {
        listing(order.drop_last(), contents) + named(order.last(), contents[order.last()])
    }
}

/// What a list of names and values holds.
pub open spec fn field_views(fields: Seq<(HeaderName, HeaderValue)>) -> Seq<
    (Seq<char>, (Seq<u8>, bool)),
> {
    fields.map_values(
        |field: (HeaderName, HeaderValue)| (name_text(field.0), value_contents(field.1)),
    )
}

/// A map that holds nothing.
pub open spec fn no_fields() -> Map<Seq<char>, Seq<(Seq<u8>, bool)>> {
    Map::empty()
}

/// Whether `count` is how many names there are.
pub open spec fn counts_names(
    count: nat,
    contents: Map<Seq<char>, Seq<(Seq<u8>, bool)>>,
) -> bool {
    contents.dom().finite() && count == contents.dom().len()
}

/// Whether `order` names each name of a map once, and the map holds a value under each.
pub open spec fn orders(
    order: Seq<Seq<char>>,
    contents: Map<Seq<char>, Seq<(Seq<u8>, bool)>>,
) -> bool {
    &&& lists(order, contents.dom())
    &&& forall|i: int| 0 <= i < order.len() ==> contents[#[trigger] order[i]].len() > 0
}

/// Whether `fields` lists a map name by name in some order.
pub open spec fn lists_fields(
    fields: Seq<(Seq<char>, (Seq<u8>, bool))>,
    contents: Map<Seq<char>, Seq<(Seq<u8>, bool)>>,
) -> bool {
    exists|order: Seq<Seq<char>>|
        #[trigger] orders(order, contents) && fields == listing(order, contents)
}

/// What a list of values holds.
pub open spec fn value_views(values: Seq<HeaderValue>) -> Seq<(Seq<u8>, bool)> {
    values.map_values(|value: HeaderValue| value_contents(value))
}

/// `HeaderMap::new`: a map that holds nothing.
#[verifier::external_body]
pub(crate) fn new_headers() -> (headers: HeaderMap)
    ensures
        header_contents(headers) == no_fields(),
{
    HeaderMap::new()
}

/// `HeaderMap::keys_len`: how many different names the map holds.
#[verifier::external_body]
pub(crate) fn name_count(headers: &HeaderMap) -> (count: usize)
    ensures
        counts_names(count as nat, header_contents(*headers)),
{
    headers.keys_len()
}

/// `HeaderMap::iter`: every field, name by name in an order that is left open, the values of one
/// name together and in the order in which they were added. Every name has a value.
#[verifier::external_body]
pub(crate) fn header_fields(headers: &HeaderMap) -> (fields: Vec<(HeaderName, HeaderValue)>)
    ensures
        lists_fields(field_views(fields@), header_contents(*headers)),
{
    headers.iter().map(|(name, value)| (name.clone(), value.clone())).collect()
}

/// `HeaderName::from_lowercase`: the name with the given text, which has to be a field name in
/// lower case.
#[verifier::external_body]
pub(crate) fn name_of_text(text: &str) -> (name: HeaderName)
    requires
        is_field_name(text@),
    ensures
        name_text(name) == text@,
{
    HeaderName::from_lowercase(text.as_bytes()).unwrap()
}

/// `HeaderName::as_str`: the text of a name.
#[verifier::external_body]
pub(crate) fn text_of_name(name: &HeaderName) -> (text: String)
    ensures
        text@ == name_text(*name),
{
    name.as_str().to_string()
}

/// `HeaderValue::from_str`: the value with the given text, which has to be visible, not marked
/// sensitive.
#[verifier::external_body]
pub(crate) fn value_of_text(text: &str) -> (value: HeaderValue)
    requires
        is_visible(utf8::encode_utf8(text@)),
    ensures
        value_contents(value) == (utf8::encode_utf8(text@), false),
{
    HeaderValue::from_str(text).unwrap()
}

/// `HeaderValue::to_str`: the text of a value whose bytes are all visible ASCII characters,
/// spaces or tabs, and nothing for any other value.
#[verifier::external_body]
pub(crate) fn text_of_value(value: &HeaderValue) -> (text: Option<String>)
    ensures
        match text {
            Some(text) => is_visible(value_contents(*value).0) && text@ == ascii_text(
                value_contents(*value).0,
            ),
            None => !is_visible(value_contents(*value).0),
        },
{
    value.to_str().ok().map(|text| text.to_string())
}

/// `HeaderMap::append`: one more value under a name, behind those it has. The call panics where
/// the map would exceed its capacity, which up to `NAME_LIMIT` names it does not.
#[verifier::external_body]
pub(crate) fn append_field(headers: &mut HeaderMap, name: &HeaderName, value: &HeaderValue)
    requires
        header_contents(*old(headers)).dom().len() <= NAME_LIMIT,
    ensures
        header_contents(*final(headers)) == with_appended(
            header_contents(*old(headers)),
            name_text(*name),
            value_contents(*value),
        ),
{
    headers.append(name, value.clone());
}

/// `HeaderMap::insert`: the value becomes the only one under the name. The call panics where the
/// map would exceed its capacity, which up to `NAME_LIMIT` names it does not.
#[verifier::external_body]
pub(crate) fn insert_field(headers: &mut HeaderMap, name: &HeaderName, value: &HeaderValue)
    requires
        header_contents(*old(headers)).dom().len() <= NAME_LIMIT,
    ensures
        header_contents(*final(headers)) == header_contents(*old(headers)).insert(
            name_text(*name),
            seq![value_contents(*value)],
        ),
{
    headers.insert(name, value.clone());
}

/// `HeaderMap::get`: the first value under a name.
#[verifier::external_body]
pub(crate) fn first_value(headers: &HeaderMap, name: &HeaderName) -> (value: Option<HeaderValue>)
    ensures
        match value {
            Some(value) => header_contents(*headers).contains_key(name_text(*name))
                && value_contents(value) == header_contents(*headers)[name_text(*name)][0],
            None => !header_contents(*headers).contains_key(name_text(*name)),
        },
{
    headers.get(name).cloned()
}

/// `HeaderMap::get_all`: the values under a name, in the order in which they were added. There is
/// at least one under each name that the map holds.
#[verifier::external_body]
pub(crate) fn all_values(headers: &HeaderMap, name: &HeaderName) -> (values: Vec<HeaderValue>)
    ensures
        value_views(values@) == values_of(header_contents(*headers), name_text(*name)),
        (values@.len() > 0) == header_contents(*headers).contains_key(name_text(*name)),
{
    headers.get_all(name).iter().cloned().collect()
}

} // verus!
