//! The header collection of a request, and its assembly from a bearer
//! token and `key:value` strings.

use crate::error::{AsteriskError, ErrorModel};
use crate::named::{
    distinct, find_name, lemma_position, lemma_position_is, names_of, position,
};
use crate::text::{ascii_alphanumeric, find_char, index_of_char, to_chars, trim_range, trimmed};
use reqwest::header::{HeaderName, HeaderValue};
use vstd::prelude::*;
use vstd::string::*;

verus! {

/// Whether `c` may stand in a header name: an ASCII letter or digit, or one
/// of the marks that a token may hold.
pub open spec fn is_token_char(c: char) -> bool {
    ascii_alphanumeric(c) || c == '!' || c == '#' || c == '$' || c == '%' || c == '&' || c == '\''
        || c == '*' || c == '+' || c == '-' || c == '.' || c == '^' || c == '_' || c == '`' || c
        == '|' || c == '~'
}

/// `c` with an ASCII capital letter made small.
pub open spec fn lowered(c: char) -> char {
    if 'A' <= c && c <= 'Z' {
        ((c as u8) + 32) as char
    } else {
        c
    }
}

/// The canonical form of a header name: the name in lower case, where it
/// is not empty, not longer than 65535 characters and made of token
/// characters only; `None` for any other text.
pub open spec fn canonical_name(raw: Seq<char>) -> Option<Seq<char>> {
    if 0 < raw.len() <= 65535 && (forall|i: int| 0 <= i < raw.len() ==> is_token_char(raw[i])) {
        Some(Seq::new(raw.len(), |i: int| lowered(raw[i])))
    } else {
        None
    }
}

/// Calls `HeaderName::from_bytes` on the bytes of `raw` and, where a name
/// comes back, `HeaderName::as_str` on it. `from_bytes` refuses the empty
/// text, a text of more than 65535 bytes and any byte that its table of
/// header characters maps to zero, which are all bytes but those of token
/// characters; the name it makes holds each byte as the table maps it,
/// capital letters to small ones and every other token character to
/// itself.
#[verifier::external_body]
fn canonical_header_name(raw: &str) -> (r: Option<String>)
    ensures
        match r {
            Some(name) => canonical_name(raw@) == Some(name@),
            None => canonical_name(raw@) is None,
        },
{
    match HeaderName::from_bytes(raw.as_bytes()) {
        Ok(name) => Some(name.as_str().to_string()),
        Err(_) => None,
    }
}

/// Whether `c` may stand in a header value: a tab, or any character from
/// the space on but the delete character.
pub open spec fn value_char(c: char) -> bool {
    c == '\t' || (c >= ' ' && c != '\x7f')
}

/// Whether every character of `value` may stand in a header value.
pub open spec fn acceptable_value(value: Seq<char>) -> bool {
    forall|i: int| 0 <= i < value.len() ==> value_char(#[trigger] value[i])
}

/// Calls `HeaderValue::from_str` and says whether it accepted the text. It
/// accepts a text whose every byte is a tab or at least 32 and not 127;
/// the bytes of a character beyond ASCII are all above 127.
#[verifier::external_body]
fn header_value_accepted(value: &str) -> (r: bool)
    ensures
        r == acceptable_value(value@),
{
    HeaderValue::from_str(value).is_ok()
}

/// The entries with `name` set to `value`: in place where the name is
/// there already, at the end where it is new.
pub open spec fn upsert(
    entries: Seq<(Seq<char>, Seq<char>)>,
    name: Seq<char>,
    value: Seq<char>,
) -> Seq<(Seq<char>, Seq<char>)> {
    let at = position(entry_names(entries), name, 0);
    if at < entries.len() {
        entries.update(at, (name, value))
    } else {
        entries.push((name, value))
    }
}

/// The names of the entries, in order.
pub open spec fn entry_names(entries: Seq<(Seq<char>, Seq<char>)>) -> Seq<Seq<char>> {
    Seq::new(entries.len(), |i: int| entries[i].0)
}

/// The value that `name` has in `entries`.
pub open spec fn value_of(entries: Seq<(Seq<char>, Seq<char>)>, name: Seq<char>) -> Option<
    Seq<char>,
> {
    let at = position(entry_names(entries), name, 0);
    if at < entries.len() {
        Some(entries[at].1)
    } else {
        None
    }
}

/// Whether the entries can be sent as they are: no name occurs twice,
/// every name is in its canonical form and every value is acceptable.
pub open spec fn sendable(entries: Seq<(Seq<char>, Seq<char>)>) -> bool {
    &&& distinct(entry_names(entries))
    &&& forall|i: int|
        0 <= i < entries.len() ==> canonical_name(#[trigger] entries[i].0) == Some(entries[i].0)
    &&& forall|i: int| 0 <= i < entries.len() ==> acceptable_value(#[trigger] entries[i].1)
}

/// The entries after the header that `name` denotes has been set to
/// `value`, or the reason why it cannot be.
pub open spec fn set_header(
    entries: Seq<(Seq<char>, Seq<char>)>,
    name: Seq<char>,
    value: Seq<char>,
) -> Result<Seq<(Seq<char>, Seq<char>)>, ErrorModel> {
    match canonical_name(name) {
        None => Err(ErrorModel::InvalidHeaderName(name)),
        Some(canonical) => if acceptable_value(value) {
            Ok(upsert(entries, canonical, value))
        } else {
            Err(ErrorModel::InvalidHeaderValue(value))
        },
    }
}

/// The headers of a request, in the order in which their names were first
/// inserted. A collection that is built by `new` and `insert` is
/// [`sendable`].
#[derive(Clone, Debug)]
pub struct HeaderCollection {
    entries: Vec<(String, String)>,
}

impl View for HeaderCollection {
    type V = Seq<(Seq<char>, Seq<char>)>;

    closed spec fn view(&self) -> Seq<(Seq<char>, Seq<char>)> {
        Seq::new(self.entries@.len(), |i: int| (self.entries@[i].0@, self.entries@[i].1@))
    }
}

impl HeaderCollection {
    /// The empty collection.
    pub fn new() -> (r: Self)
        ensures
            r@ == Seq::<(Seq<char>, Seq<char>)>::empty(),
            sendable(r@),
    {
        let r = HeaderCollection { entries: Vec::new() };
        assert(r@ =~= Seq::<(Seq<char>, Seq<char>)>::empty());
        r
    }

    /// The number of headers.
    pub fn len(&self) -> (n: usize)
        ensures
            n == self@.len(),
    {
        self.entries.len()
    }

    /// Whether there is no header.
    pub fn is_empty(&self) -> (r: bool)
        ensures
            r == (self@.len() == 0),
    {
        self.entries.len() == 0
    }

    /// The name of the header at `index`.
    pub fn name_at(&self, index: usize) -> (r: &str)
        requires
            index < self@.len(),
        ensures
            r@ == self@[index as int].0,
    {
        self.entries[index].0.as_str()
    }

    /// The value of the header at `index`.
    pub fn value_at(&self, index: usize) -> (r: &str)
        requires
            index < self@.len(),
        ensures
            r@ == self@[index as int].1,
    {
        self.entries[index].1.as_str()
    }

    /// Sets the header `name`, which is taken as it is written, to `value`.
    /// A header of that name keeps its place and loses its old value.
    pub(crate) fn set(&mut self, name: String, value: String)
        ensures
            final(self)@ == upsert(old(self)@, name@, value@),
            sendable(old(self)@) && canonical_name(name@) == Some(name@) && acceptable_value(value@)
                ==> sendable(final(self)@),
    {
        proof {
            lemma_position(names_of(self.entries@), name@, 0);
            assert(entry_names(self@) =~= names_of(self.entries@));
        }
        let ghost before = self.entries@;
        let at = find_name(&self.entries, name.as_str());
        let ghost model = upsert(self@, name@, value@);
        if at < self.entries.len() {
            self.entries.set(at, (name, value));
            proof {
                assert(names_of(self.entries@) =~= names_of(before));
            }
        } else {
            self.entries.push((name, value));
            proof {
                assert(names_of(self.entries@) =~= names_of(before).push(name@));
            }
        }
        assert(self@ =~= model);
        assert(entry_names(self@) =~= names_of(self.entries@));
    }

    /// Sets the header that `name` denotes, whatever its case, to `value`.
    /// A header of that name keeps its place and loses its old value. A
    /// name or a value that cannot be sent is refused, and the collection
    /// then stays as it is.
    pub fn insert(&mut self, name: &str, value: &str) -> (r: Result<(), AsteriskError>)
        ensures
            match set_header(old(self)@, name@, value@) {
                Ok(next) => r is Ok && final(self)@ == next,
                Err(e) => r matches Err(x) && x@ == e && final(self)@ == old(self)@,
            },
            sendable(old(self)@) ==> sendable(final(self)@),
    {
        match canonical_header_name(name) {
            None => Err(AsteriskError::InvalidHeaderName(name.to_owned())),
            Some(canonical) => {
                if header_value_accepted(value) {
                    proof {
                        lemma_canonical_is_fixed(name@);
                    }
                    self.set(canonical, value.to_owned());
                    Ok(())
                } else {
                    Err(AsteriskError::InvalidHeaderValue(value.to_owned()))
                }
            },
        }
    }

    /// The value of the header that `name` denotes, whatever its case.
    pub fn get(&self, name: &str) -> (r: Option<String>)
        ensures
            match canonical_name(name@) {
                Some(canonical) => match value_of(self@, canonical) {
                    Some(value) => r matches Some(found) && found@ == value,
                    None => r is None,
                },
                None => r is None,
            },
    {
        match canonical_header_name(name) {
            None => None,
            Some(canonical) => {
                proof {
                    assert(entry_names(self@) =~= names_of(self.entries@));
                }
                let at = find_name(&self.entries, canonical.as_str());
                if at < self.entries.len() {
                    Some(self.entries[at].1.clone())
                } else {
                    None
                }
            },
        }
    }
}

/// The texts of a list of strings.
pub open spec fn texts(list: Seq<String>) -> Seq<Seq<char>> {
    Seq::new(list.len(), |i: int| list[i]@)
}

/// The text of an optional string slice.
pub open spec fn optional_text(o: Option<&str>) -> Option<Seq<char>> {
    match o {
        Some(text) => Some(text@),
        None => None,
    }
}

/// The model of a `Result` that carries a header collection.
pub open spec fn headers_result(r: Result<HeaderCollection, AsteriskError>) -> Result<
    Seq<(Seq<char>, Seq<char>)>,
    ErrorModel,
> {
    match r {
        Ok(headers) => Ok(headers@),
        Err(e) => Err(e@),
    }
}

/// The value of the `authorization` header that carries `token`.
pub open spec fn bearer(token: Seq<char>) -> Seq<char> {
    "Bearer "@ + token
}

/// The key of a `key:value` entry: what stands before the first `:`,
/// trimmed.
pub open spec fn entry_key(entry: Seq<char>) -> Seq<char> {
    trimmed(entry, 0, find_char(entry, ':', 0))
}

/// The value of a `key:value` entry: what stands behind the first `:`,
/// trimmed.
pub open spec fn entry_value(entry: Seq<char>) -> Seq<char> {
    trimmed(entry, find_char(entry, ':', 0) + 1, entry.len() as int)
}

/// The entries after one `key:value` string has been inserted, or the
/// reason why it cannot be.
pub open spec fn insert_entry(entries: Seq<(Seq<char>, Seq<char>)>, entry: Seq<char>) -> Result<
    Seq<(Seq<char>, Seq<char>)>,
    ErrorModel,
> {
    if find_char(entry, ':', 0) >= entry.len() {
        Err(ErrorModel::MalformedHeaderEntry(None, entry))
    } else {
        set_header(entries, entry_key(entry), entry_value(entry))
    }
}

/// The entries after the strings of `list` from `from` on have been
/// inserted in order, or the first failure.
pub open spec fn insert_entries(
    entries: Seq<(Seq<char>, Seq<char>)>,
    list: Seq<Seq<char>>,
    from: int,
) -> Result<Seq<(Seq<char>, Seq<char>)>, ErrorModel>
    decreases list.len() - from,
{
    if from < 0 || from >= list.len() {
        Ok(entries)
    } else {
        match insert_entry(entries, list[from]) {
            Err(e) => Err(e),
            Ok(next) => insert_entries(next, list, from + 1),
        }
    }
}

/// The collection that a token alone gives: empty without one, else the
/// one header `authorization`.
pub open spec fn token_entries(token: Option<Seq<char>>) -> Result<
    Seq<(Seq<char>, Seq<char>)>,
    ErrorModel,
> {
    match token {
        None => Ok(Seq::empty()),
        Some(t) => if acceptable_value(bearer(t)) {
            Ok(seq![("authorization"@, bearer(t))])
        } else {
            Err(ErrorModel::InvalidHeaderValue(bearer(t)))
        },
    }
}

/// The assembled headers: the token's header first, then the strings of
/// `list` in order, a later one of the same name overwriting an earlier.
pub open spec fn assembled(token: Option<Seq<char>>, list: Seq<Seq<char>>) -> Result<
    Seq<(Seq<char>, Seq<char>)>,
    ErrorModel,
> {
    match token_entries(token) {
        Err(e) => Err(e),
        Ok(start) => insert_entries(start, list, 0),
    }
}

/// The pieces of `s` between its commas from `from` on, each trimmed.
pub open spec fn comma_pieces(s: Seq<char>, from: int) -> Seq<Seq<char>>
    decreases s.len() - from,
{
    let comma = find_char(s, ',', from);
    if 0 <= from <= comma < s.len() {
        seq![trimmed(s, from, comma)] + comma_pieces(s, comma + 1)
    } else {
        seq![trimmed(s, from, s.len() as int)]
    }
}

/// The entries of a `k:v,k2:v2` list: none for the empty text.
pub open spec fn listed_entries(s: Seq<char>) -> Seq<Seq<char>> {
    if s.len() == 0 {
        Seq::empty()
    } else {
        comma_pieces(s, 0)
    }
}

/// Splits a `k:v,k2:v2` list at its commas and trims the pieces.
pub fn split_header_list(headers_str: &str) -> (r: Vec<String>)
    ensures
        texts(r@) == listed_entries(headers_str@),
{
    let chars = to_chars(headers_str);
    let mut pieces: Vec<String> = Vec::new();
    if chars.len() == 0 {
        assert(texts(pieces@) =~= listed_entries(headers_str@));
        return pieces;
    }
    let mut from: usize = 0;
    loop
        invariant
            chars@ == headers_str@,
            from <= chars.len(),
            chars.len() > 0,
            texts(pieces@) + comma_pieces(chars@, from as int) == comma_pieces(chars@, 0),
        decreases chars.len() - from,
    {
        let comma = index_of_char(&chars, ',', from);
        let ghost before = texts(pieces@);
        if comma < chars.len() {
            pieces.push(trim_range(&chars, from, comma));
            proof {
                let piece = trimmed(chars@, from as int, comma as int);
                assert(texts(pieces@) =~= before.push(piece));
                assert(before.push(piece) + comma_pieces(chars@, comma + 1) =~= before + (seq![
                    piece,
                ] + comma_pieces(chars@, comma + 1)));
            }
            from = comma + 1;
        } else {
            pieces.push(trim_range(&chars, from, chars.len()));
            proof {
                let piece = trimmed(chars@, from as int, chars@.len() as int);
                assert(texts(pieces@) =~= before.push(piece));
                assert(comma_pieces(chars@, from as int) == seq![piece]);
                assert(before.push(piece) =~= before + seq![piece]);
            }
            return pieces;
        }
    }
}

/// Inserts one `key:value` string: splits it at the first `:`, trims both
/// parts, puts the key into its canonical form and sets the header.
pub fn parse_single_header(header_str: &str, headers: &mut HeaderCollection) -> (r: Result<
    (),
    AsteriskError,
>)
    ensures
        match insert_entry(old(headers)@, header_str@) {
            Ok(next) => r is Ok && final(headers)@ == next,
            Err(e) => r matches Err(x) && x@ == e && final(headers)@ == old(headers)@,
        },
        sendable(old(headers)@) ==> sendable(final(headers)@),
{
    let chars = to_chars(header_str);
    let colon = index_of_char(&chars, ':', 0);
    if colon >= chars.len() {
        return Err(AsteriskError::MalformedHeaderEntry(None, header_str.to_owned()));
    }
    let key = trim_range(&chars, 0, colon);
    let value = trim_range(&chars, colon + 1, chars.len());
    headers.insert(key.as_str(), value.as_str())
}

/// `authorization` is a header name in its canonical form.
pub proof fn lemma_authorization_is_canonical()
    ensures
        canonical_name("authorization"@) == Some("authorization"@),
{
    reveal_strlit("authorization");
    let name = "authorization"@;
    assert(name.len() == 13);
    assert forall|i: int| 0 <= i < name.len() implies is_token_char(name[i]) && lowered(name[i])
        == name[i] by {
        assert(ascii_alphanumeric(name[i]));
    }
    assert(canonical_name(name)->Some_0 =~= name);
}

/// The collection that a token alone gives.
pub fn token_headers(token: Option<&str>) -> (r: Result<HeaderCollection, AsteriskError>)
    ensures
        headers_result(r) == token_entries(optional_text(token)),
        r matches Ok(headers) ==> sendable(headers@),
{
    let mut headers = HeaderCollection::new();
    match token {
        None => Ok(headers),
        Some(t) => {
            let value = String::from_str("Bearer ").concat(t);
            if header_value_accepted(value.as_str()) {
                proof {
                    lemma_authorization_is_canonical();
                }
                headers.set(String::from_str("authorization"), value);
                assert(headers@ =~= seq![("authorization"@, bearer(t@))]);
                Ok(headers)
            } else {
                Err(AsteriskError::InvalidHeaderValue(value))
            }
        },
    }
}

/// Assembles the headers of a request from an optional bearer token and a
/// list of `key:value` strings.
pub fn assemble(token: Option<&str>, header_strings: &Vec<String>) -> (r: Result<
    HeaderCollection,
    AsteriskError,
>)
    ensures
        headers_result(r) == assembled(optional_text(token), texts(header_strings@)),
        r matches Ok(headers) ==> sendable(headers@),
{
    let mut headers = match token_headers(token) {
        Err(e) => {
            return Err(e);
        },
        Ok(headers) => headers,
    };
    let ghost list = texts(header_strings@);
    let mut i: usize = 0;
    while i < header_strings.len()
        invariant
            i <= header_strings.len(),
            list == texts(header_strings@),
            sendable(headers@),
            token_entries(optional_text(token)) is Ok,
            insert_entries(headers@, list, i as int) == assembled(optional_text(token), list),
        decreases header_strings.len() - i,
    {
        match parse_single_header(header_strings[i].as_str(), &mut headers) {
            Err(e) => {
                return Err(e);
            },
            Ok(()) => {},
        }
        i += 1;
    }
    Ok(headers)
}

/// After `name` has been set to `value`, `name` has that value and every
/// other name the value it had.
pub proof fn lemma_upsert_value(
    entries: Seq<(Seq<char>, Seq<char>)>,
    name: Seq<char>,
    value: Seq<char>,
    key: Seq<char>,
)
    ensures
        value_of(upsert(entries, name, value), key) == if key == name {
            Some(value)
        } else {
            value_of(entries, key)
        },
{
    let names = entry_names(entries);
    let at = position(names, name, 0);
    let after = upsert(entries, name, value);
    let after_names = entry_names(after);
    lemma_position(names, name, 0);
    lemma_position(names, key, 0);
    let found = position(names, key, 0);
    if at < entries.len() {
        assert(after_names =~= names);
    } else {
        assert(after_names =~= names.push(name));
        if key == name {
            lemma_position_is(after_names, key, 0, at);
        } else if found < names.len() {
            lemma_position_is(after_names, key, 0, found);
        } else {
            lemma_position_is(after_names, key, 0, found + 1);
        }
    }
}

/// Whether the entry at `index` of `list` sets the header `name`.
pub open spec fn names_header(list: Seq<Seq<char>>, index: int, name: Seq<char>) -> bool {
    canonical_name(entry_key(list[index])) == Some(name)
}

/// The value that the header `name` has once the entries of `list` from
/// `from` on have been inserted, where it had the value `current` before:
/// that of the last entry that names it, and `current` where none does.
pub open spec fn value_after(
    list: Seq<Seq<char>>,
    from: int,
    name: Seq<char>,
    current: Seq<char>,
) -> Seq<char>
    decreases list.len() - from,
{
    if from < 0 || from >= list.len() {
        current
    } else if names_header(list, from, name) {
        value_after(list, from + 1, name, entry_value(list[from]))
    } else {
        value_after(list, from + 1, name, current)
    }
}

/// Where no entry from `from` on names the header, its value stays.
pub proof fn lemma_value_stays(list: Seq<Seq<char>>, from: int, name: Seq<char>, current: Seq<char>)
    requires
        0 <= from,
        forall|i: int| from <= i < list.len() ==> !names_header(list, i, name),
    ensures
        value_after(list, from, name, current) == current,
    decreases list.len() - from,
{
    if from < list.len() {
        assert(!names_header(list, from, name));
        lemma_value_stays(list, from + 1, name, current);
    }
}

/// A header that is set stays set while further entries are inserted. Its
/// value is then that of the last entry that names it, and the value it
/// had where none does.
pub proof fn lemma_header_survives(
    entries: Seq<(Seq<char>, Seq<char>)>,
    list: Seq<Seq<char>>,
    from: int,
    name: Seq<char>,
)
    requires
        0 <= from,
        value_of(entries, name) is Some,
        insert_entries(entries, list, from) is Ok,
    ensures
        insert_entries(entries, list, from) matches Ok(after) && value_of(after, name) == Some(
            value_after(list, from, name, value_of(entries, name)->Some_0),
        ),
    decreases list.len() - from,
{
    if from < list.len() {
        let entry = list[from];
        let next = insert_entry(entries, entry)->Ok_0;
        let set = canonical_name(entry_key(entry))->Some_0;
        lemma_upsert_value(entries, set, entry_value(entry), name);
        lemma_header_survives(next, list, from + 1, name);
    }
}

/// Assembly with a token always yields an `authorization` header. It
/// carries the token unless an entry of the list names `authorization`
/// itself, in which case the last such entry decides.
pub proof fn lemma_token_sets_authorization(token: Seq<char>, list: Seq<Seq<char>>)
    requires
        assembled(Some(token), list) is Ok,
    ensures
        assembled(Some(token), list) matches Ok(headers) && value_of(headers, "authorization"@)
            == Some(value_after(list, 0, "authorization"@, bearer(token))),
        (forall|i: int| 0 <= i < list.len() ==> !names_header(list, i, "authorization"@))
            ==> value_after(list, 0, "authorization"@, bearer(token)) == bearer(token),
{
    let start = seq![("authorization"@, bearer(token))];
    assert(entry_names(start)[0] == "authorization"@);
    assert(value_of(start, "authorization"@) == Some(bearer(token)));
    lemma_header_survives(start, list, 0, "authorization"@);
    if forall|i: int| 0 <= i < list.len() ==> !names_header(list, i, "authorization"@) {
        lemma_value_stays(list, 0, "authorization"@, bearer(token));
    }
}

/// Header names are told apart without regard to case: two texts that
/// differ only in the case of their ASCII letters have one canonical form.
pub proof fn lemma_names_ignore_case(a: Seq<char>, b: Seq<char>)
    requires
        a.len() == b.len(),
        forall|i: int| 0 <= i < a.len() ==> lowered(a[i]) == lowered(b[i]),
    ensures
        canonical_name(a) == canonical_name(b),
{
    assert forall|i: int| 0 <= i < a.len() implies is_token_char(a[i]) == is_token_char(b[i]) by {
        assert(lowered(a[i]) == lowered(b[i]));
    }
    if canonical_name(a) is Some {
        assert(canonical_name(a)->Some_0 =~= canonical_name(b)->Some_0);
    }
}

/// A canonical name is its own canonical form.
pub proof fn lemma_canonical_is_fixed(raw: Seq<char>)
    requires
        canonical_name(raw) is Some,
    ensures
        canonical_name(canonical_name(raw)->Some_0) == canonical_name(raw),
{
    let name = canonical_name(raw)->Some_0;
    assert forall|i: int| 0 <= i < name.len() implies is_token_char(name[i]) && lowered(name[i])
        == name[i] by {
        assert(is_token_char(raw[i]));
        assert(name[i] == lowered(raw[i]));
    }
    assert(canonical_name(name)->Some_0 =~= name);
}

} // verus!
