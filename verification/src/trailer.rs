//! Trailers: the `Key: Value` lines by which a message carries metadata.
//!
//! A line is a trailer if it starts with a key, one or more letters, digits
//! and hyphens, that is followed at once by `:` or `=`. What follows the
//! delimiter, without the white space around it, is the value: an integer if
//! it reads as one, text otherwise.

use vstd::prelude::*;
use vstd::string::StrSliceExecFns;
use vstd::string::StringExecFns;

use crate::error::Kind;
use crate::text::{
    chars_of, glue, decimal, decimal_text, is_key_char, is_trimmed, key_char,
    lemma_decimal_nat, lemma_parse_decimal, lemma_trim_of_trimmed, parse_i64, parse_integer,
    starts_with, trim, trim_start, trimmed,
};

verus! {

/// What the value of a trailer is to a contract.
pub enum ValueView {
    Int(i64),
    String(Seq<char>),
}

/// What a trailer is to a contract.
pub struct TrailerView {
    pub key: Seq<char>,
    pub value: ValueView,
}

/// The key of a trailer, as in `Signed-off-by`.
#[derive(Debug, Hash, Eq, Ord, PartialOrd, Clone)]
pub struct TrailerKey(pub String);

impl View for TrailerKey {
    type V = Seq<char>;

    open spec fn view(&self) -> Seq<char> {
        self.0@
    }
}

impl PartialEq for TrailerKey {
    fn eq(&self, other: &TrailerKey) -> (r: bool) {
        self.0 == other.0
    }
}

impl vstd::std_specs::cmp::PartialEqSpecImpl for TrailerKey {
    open spec fn obeys_eq_spec() -> bool {
        true
    }

    open spec fn eq_spec(&self, other: &TrailerKey) -> bool {
        self@ == other@
    }
}

impl From<String> for TrailerKey {
    fn from(string: String) -> (key: TrailerKey) {
        TrailerKey(string)
    }
}

impl vstd::std_specs::convert::FromSpecImpl<String> for TrailerKey {
    open spec fn obeys_from_spec() -> bool {
        true
    }

    open spec fn from_spec(string: String) -> TrailerKey {
        TrailerKey(string)
    }
}

impl TrailerKey {
    /// The key with the given characters.
    pub fn new(string: String) -> (key: TrailerKey)
        ensures
            key@ == string@,
    {
        TrailerKey(string)
    }

    /// The characters of the key.
    pub fn as_ref(&self) -> (s: &String)
        ensures
            s@ == self@,
    {
        &self.0
    }

    /// The characters of the key.
    pub fn to_string(&self) -> (s: String)
        ensures
            s@ == self@,
    {
        self.0.clone()
    }

    /// A second key with the same characters.
    pub fn duplicate(&self) -> (key: TrailerKey)
        ensures
            key@ == self@,
    {
        TrailerKey(self.0.clone())
    }
}

/// The value of a trailer: a number, or text.
#[derive(Debug, Hash, Eq, Ord, PartialOrd, Clone)]
pub enum TrailerValue {
    Int(i64),
    String(String),
}

impl View for TrailerValue {
    type V = ValueView;

    open spec fn view(&self) -> ValueView {
        match self {
            TrailerValue::Int(i) => ValueView::Int(*i),
            TrailerValue::String(s) => ValueView::String(s@),
        }
    }
}

impl PartialEq for TrailerValue {
    fn eq(&self, other: &TrailerValue) -> (r: bool) {
        match (self, other) {
            (TrailerValue::Int(a), TrailerValue::Int(b)) => *a == *b,
            (TrailerValue::String(a), TrailerValue::String(b)) => *a == *b,
            _ => false,
        }
    }
}

impl vstd::std_specs::cmp::PartialEqSpecImpl for TrailerValue {
    open spec fn obeys_eq_spec() -> bool {
        true
    }

    open spec fn eq_spec(&self, other: &TrailerValue) -> bool {
        self@ == other@
    }
}

/// The value that the text `s` stands for: the integer it reads as, if it
/// reads as one that fits in 64 bits, and the text itself if not.
pub open spec fn value_of_text(s: Seq<char>) -> ValueView {
    match parse_i64(s) {
        Some(i) => ValueView::Int(i),
        None => ValueView::String(s),
    }
}

/// The text of a value: a number in decimal, text as it is.
pub open spec fn value_text(v: ValueView) -> Seq<char> {
    match v {
        ValueView::Int(i) => decimal(i as int),
        ValueView::String(s) => s,
    }
}

impl TrailerValue {
    /// The value that `slice` stands for: a number if it reads as one, text
    /// if not.
    pub fn from_slice(slice: &str) -> (v: TrailerValue)
        ensures
            v@ == value_of_text(slice@),
    {
        match parse_integer(slice) {
            Some(i) => TrailerValue::Int(i),
            None => TrailerValue::String(String::from_str(slice)),
        }
    }

    /// Puts `slice` behind the value, which is text from then on: what was a
    /// number is its decimal digits with `slice` behind them.
    pub fn append(&mut self, slice: &str)
        ensures
            final(self)@ == ValueView::String(value_text(old(self)@) + slice@),
    {
        let mut text = self.to_string();
        text.append(slice);
        *self = TrailerValue::String(text);
    }

    /// The text of the value.
    pub fn to_string(&self) -> (s: String)
        ensures
            s@ == value_text(self@),
    {
        match self {
            TrailerValue::Int(i) => decimal_text(*i),
            TrailerValue::String(s) => s.clone(),
        }
    }

    /// A second value, equal to this one.
    pub fn duplicate(&self) -> (v: TrailerValue)
        ensures
            v@ == self@,
    {
        match self {
            TrailerValue::Int(i) => TrailerValue::Int(*i),
            TrailerValue::String(s) => TrailerValue::String(s.clone()),
        }
    }
}

impl Default for TrailerValue {
    /// The empty text.
    fn default() -> (v: TrailerValue)
        ensures
            v@ == ValueView::String(Seq::<char>::empty()),
    {
        TrailerValue::String(String::new())
    }
}

/// A trailer: a key and a value.
#[derive(Debug, Hash, Eq, Ord, PartialOrd, Clone)]
pub struct Trailer {
    pub key: TrailerKey,
    pub value: TrailerValue,
}

impl View for Trailer {
    type V = TrailerView;

    open spec fn view(&self) -> TrailerView {
        TrailerView { key: self.key@, value: self.value@ }
    }
}

impl PartialEq for Trailer {
    fn eq(&self, other: &Trailer) -> (r: bool) {
        self.key == other.key && self.value == other.value
    }
}

impl vstd::std_specs::cmp::PartialEqSpecImpl for Trailer {
    open spec fn obeys_eq_spec() -> bool {
        true
    }

    open spec fn eq_spec(&self, other: &Trailer) -> bool {
        self@ == other@
    }
}

impl From<Trailer> for (TrailerKey, TrailerValue) {
    fn from(trailer: Trailer) -> (pair: (TrailerKey, TrailerValue)) {
        (trailer.key, trailer.value)
    }
}

impl vstd::std_specs::convert::FromSpecImpl<Trailer> for (TrailerKey, TrailerValue) {
    open spec fn obeys_from_spec() -> bool {
        true
    }

    open spec fn from_spec(trailer: Trailer) -> (TrailerKey, TrailerValue) {
        (trailer.key, trailer.value)
    }
}

/// The number of characters at the start of `s` that may stand in a key.
pub open spec fn key_len(s: Seq<char>) -> nat
    decreases s.len(),
{
    if s.len() > 0 && is_key_char(s[0]) {
        1 + key_len(s.drop_first())
    } else {
        0
    }
}

/// Whether `s` holds nothing but characters that may stand in a key, and at
/// least one.
pub open spec fn is_key(s: Seq<char>) -> bool {
    s.len() > 0 && forall|i: int| 0 <= i < s.len() ==> is_key_char(#[trigger] s[i])
}

/// Whether `c` parts the key of a trailer from its value.
pub open spec fn is_delimiter(c: char) -> bool {
    c == ':' || c == '='
}

/// Whether the line break occurs in `s`.
pub open spec fn has_line_break(s: Seq<char>) -> bool {
    s.contains('\n')
}

/// Whether `line` is a trailer: a key, a delimiter at once behind it, and no
/// line break behind that.
pub open spec fn is_trailer_line(line: Seq<char>) -> bool {
    let k = key_len(line) as int;
    k >= 1 && k < line.len() && is_delimiter(line[k]) && !has_line_break(line.skip(k + 1))
}

/// The trailer that `line` is, if it is one. Its key is what stands before
/// the delimiter. Its value is what stands behind it, without the white
/// space at either end.
pub open spec fn parse_trailer(line: Seq<char>) -> Option<TrailerView> {
    if is_trailer_line(line) {
        let k = key_len(line) as int;
        Some(TrailerView { key: line.take(k), value: value_of_text(trim(line.skip(k + 1))) })
    } else {
        None
    }
}

/// The line that a trailer is written as: the key, a colon, a blank, and
/// the text of the value.
pub open spec fn trailer_text(t: TrailerView) -> Seq<char> {
    t.key + seq![':', ' '] + value_text(t.value)
}

/// `key_len` counts the characters before the first one that may not stand
/// in a key.
pub proof fn lemma_key_len(s: Seq<char>, k: int)
    requires
        0 <= k <= s.len(),
        forall|i: int| 0 <= i < k ==> is_key_char(#[trigger] s[i]),
        k < s.len() ==> !is_key_char(s[k]),
    ensures
        key_len(s) == k,
    decreases s.len(),
{
    if k > 0 {
        assert(is_key_char(s[0]));
        let t = s.drop_first();
        assert forall|i: int| 0 <= i < k - 1 implies is_key_char(#[trigger] t[i]) by {
            assert(t[i] == s[i + 1]);
        }
        if k - 1 < t.len() {
            assert(t[k - 1] == s[k]);
        }
        lemma_key_len(t, k - 1);
    }
}

/// The position behind the key that starts at position `start` of `v`.
pub(crate) fn scan_key(v: &Vec<char>, start: usize) -> (end: usize)
    requires
        start <= v.len(),
    ensures
        start <= end <= v.len(),
        end - start == key_len(v@.skip(start as int)),
{
    let ghost body = v@.skip(start as int);
    let mut end: usize = start;
    while end < v.len() && key_char(v[end])
        invariant
            start <= end <= v.len(),
            body == v@.skip(start as int),
            forall|i: int| 0 <= i < end - start ==> is_key_char(#[trigger] body[i]),
        decreases v.len() - end,
    {
        end += 1;
    }
    proof {
        if end < v.len() {
            assert(body[end - start] == v@[end as int]);
        }
        lemma_key_len(body, end - start);
    }
    end
}

/// Whether no line break stands in `v` at position `from` or behind it.
pub(crate) fn free_of_line_breaks(v: &Vec<char>, from: usize) -> (b: bool)
    requires
        from <= v.len(),
    ensures
        b == !has_line_break(v@.skip(from as int)),
{
    let ghost rest = v@.skip(from as int);
    let mut i: usize = from;
    while i < v.len()
        invariant
            from <= i <= v.len(),
            rest == v@.skip(from as int),
            forall|j: int| 0 <= j < i - from ==> rest[j] != '\n',
        decreases v.len() - i,
    {
        if v[i] == '\n' {
            proof {
                assert(rest[i - from] == '\n');
            }
            return false;
        }
        i += 1;
    }
    true
}

impl Trailer {
    /// The trailer with the key `key` and the value that `value` stands
    /// for.
    pub fn new(key: &str, value: &str) -> (t: Trailer)
        ensures
            t@ == (TrailerView { key: key@, value: value_of_text(value@) }),
    {
        Trailer { key: TrailerKey(String::from_str(key)), value: TrailerValue::from_slice(value) }
    }

    /// Reads a line as a trailer. A line that is none is handed back in the
    /// error.
    pub fn from_str(s: &str) -> (r: Result<Trailer, Kind>)
        ensures
            match r {
                Ok(t) => parse_trailer(s@) == Some(t@),
                Err(Kind::TrailerFormatError(line)) => parse_trailer(s@) is None && line@ == s@,
                Err(_) => false,
            },
    {
        let v = chars_of(s);
        let k = scan_key(&v, 0);
        proof {
            assert(v@.skip(0) =~= v@);
        }
        if k == 0 || k == v.len() || !(v[k] == ':' || v[k] == '=') {
            return Err(Kind::TrailerFormatError(String::from_str(s)));
        }
        if !free_of_line_breaks(&v, k + 1) {
            return Err(Kind::TrailerFormatError(String::from_str(s)));
        }
        proof {
            assert(v@.take(k as int) =~= v@.subrange(0, k as int));
            assert(v@.skip(k + 1) =~= v@.subrange(k + 1, v@.len() as int));
        }
        let key = s.substring_char(0, k);
        let value = trimmed(s.substring_char(k + 1, v.len()));
        Ok(Trailer::new(key, value))
    }

    /// The line that the trailer is written as.
    pub fn to_string(&self) -> (s: String)
        ensures
            s@ == trailer_text(self@),
    {
        proof {
            reveal_strlit(": ");
        }
        let mut s = glue(self.key.as_ref().as_str(), ": ");
        let value = self.value.to_string();
        s.append(value.as_str());
        proof {
            assert(": "@ =~= seq![':', ' ']);
        }
        s
    }

    /// A second trailer, equal to this one.
    pub fn duplicate(&self) -> (t: Trailer)
        ensures
            t@ == self@,
    {
        Trailer { key: self.key.duplicate(), value: self.value.duplicate() }
    }

    /// Whether the key starts with `Dit`, which marks the metadata that the
    /// tracker itself keeps.
    pub fn is_dit(&self) -> (b: bool)
        ensures
            b == is_dit_key(self@.key),
    {
        crate::text::has_prefix(self.key.as_ref().as_str(), "Dit")
    }
}

/// Whether a key starts with `Dit`.
pub open spec fn is_dit_key(key: Seq<char>) -> bool {
    starts_with(key, "Dit"@)
}

/// Whether a trailer comes back from the line it is written as: its key is
/// a key, and its value, if it is text, has no white space at either end,
/// holds no line break and does not read as a number.
pub open spec fn is_canonical(t: TrailerView) -> bool {
    is_key(t.key) && match t.value {
        ValueView::Int(_) => true,
        ValueView::String(s) => is_trimmed(s) && !has_line_break(s) && parse_i64(s) is None,
    }
}

/// The decimal form of a number holds digits and at most a sign.
proof fn lemma_decimal_plain(i: i64)
    ensures
        decimal(i as int).len() > 0,
        forall|k: int|
            0 <= k < decimal(i as int).len() ==> {
                let c = #[trigger] decimal(i as int)[k];
                c == '-' || crate::text::is_digit(c)
            },
{
    if i < 0 {
        lemma_decimal_nat((-i) as nat);
        let d = crate::text::decimal_nat((-i) as nat);
        assert forall|k: int| 0 <= k < decimal(i as int).len() implies {
            let c = #[trigger] decimal(i as int)[k];
            c == '-' || crate::text::is_digit(c)
        } by {
            if k > 0 {
                assert(decimal(i as int)[k] == d[k - 1]);
            }
        }
    } else {
        lemma_decimal_nat(i as nat);
    }
}

/// Writing a trailer as a line and reading the line gives the trailer back,
/// for every trailer that is canonical.
pub proof fn lemma_parse_of_text(t: TrailerView)
    requires
        is_canonical(t),
    ensures
        parse_trailer(trailer_text(t)) == Some(t),
{
    let text = value_text(t.value);
    let line = trailer_text(t);
    let k = t.key.len() as int;
    assert(line.len() == k + 2 + text.len());
    assert forall|i: int| 0 <= i < k implies is_key_char(#[trigger] line[i]) by {
        assert(line[i] == t.key[i]);
    }
    assert(line[k] == ':');
    lemma_key_len(line, k);
    assert(line.take(k) =~= t.key);
    let rest = line.skip(k + 1);
    assert(rest =~= seq![' '] + text);
    // The text of the value has no white space at its ends and no line
    // break, and reads as the value.
    match t.value {
        ValueView::Int(i) => {
            lemma_decimal_plain(i);
            lemma_parse_decimal(i);
        },
        ValueView::String(s) => {},
    }
    assert(is_trimmed(text));
    assert(!has_line_break(text)) by {
        if has_line_break(text) {
            let j = choose|j: int| 0 <= j < text.len() && text[j] == '\n';
            match t.value {
                ValueView::Int(i) => {
                    assert(text[j] == '-' || crate::text::is_digit(text[j]));
                },
                ValueView::String(s) => {},
            }
        }
    }
    assert(!has_line_break(rest)) by {
        if has_line_break(rest) {
            let j = choose|j: int| 0 <= j < rest.len() && rest[j] == '\n';
            assert(j > 0);
            assert(text[j - 1] == '\n');
        }
    }
    assert(rest.drop_first() =~= text);
    lemma_trim_of_trimmed(text);
    assert(trim_start(rest) == trim_start(text));
    assert(trim(rest) == text);
    assert(value_of_text(text) == t.value);
}

} // verus!
