//! The SNBT (stringified NBT) reader used by command arguments such as `/summon`.
//!
//! Text like `{Health:20.0f,NoAI:1b}` is read into an [`NbtCompound`]. Numbers
//! with a float suffix keep their digits as text: the library checks that the
//! text is a valid float literal and leaves the conversion to the caller.

use vstd::prelude::*;

use crate::literal::{float_literal_ok, int_literal_in, is_float_literal, parse_int_in};
use crate::text::{
    alphanumeric, chars_eq, chars_of, contains, copy_chars, is_alphanumeric, is_whitespace, is_whitespace_char,
    lowercase, push_char, string_of, to_lowercase,
};

verus! {

/// A list tag: every element has the type of the first one.
pub enum NbtList {
    Empty,
    Byte(Vec<i8>),
    Int(Vec<i32>),
    Long(Vec<i64>),
    Float(Vec<String>),
    Double(Vec<String>),
    String(Vec<String>),
    Compound(Vec<NbtCompound>),
}

/// One NBT value.
pub enum NbtTag {
    Byte(i8),
    Short(i16),
    Int(i32),
    Long(i64),
    /// The literal text of a float (without its suffix).
    Float(String),
    /// The literal text of a double (without its suffix).
    Double(String),
    String(String),
    ByteArray(Vec<u8>),
    IntArray(Vec<i32>),
    LongArray(Vec<i64>),
    List(NbtList),
    Compound(NbtCompound),
}

/// A compound tag: its entries in the order they were inserted.
///
/// Inserting a key twice keeps both entries.
pub struct NbtCompound {
    pub entries: Vec<(String, NbtTag)>,
}

/// The mathematical model of a list tag.
pub enum ListModel {
    Empty,
    Byte(Seq<i8>),
    Int(Seq<i32>),
    Long(Seq<i64>),
    Float(Seq<Seq<char>>),
    Double(Seq<Seq<char>>),
    Str(Seq<Seq<char>>),
    Compound(Seq<Seq<(Seq<char>, TagModel)>>),
}

/// The mathematical model of a tag.
pub enum TagModel {
    Byte(i8),
    Short(i16),
    Int(i32),
    Long(i64),
    Float(Seq<char>),
    Double(Seq<char>),
    Str(Seq<char>),
    ByteArray(Seq<u8>),
    IntArray(Seq<i32>),
    LongArray(Seq<i64>),
    List(ListModel),
    Compound(Seq<(Seq<char>, TagModel)>),
}

/// The model of a sequence of string values.
pub open spec fn strings_model(v: Seq<String>) -> Seq<Seq<char>> {
    v.map_values(|s: String| s@)
}

/// The model of a tag.
pub open spec fn tag_model(t: NbtTag) -> TagModel
    decreases t,
{
    match t {
        NbtTag::Byte(b) => TagModel::Byte(b),
        NbtTag::Short(s) => TagModel::Short(s),
        NbtTag::Int(i) => TagModel::Int(i),
        NbtTag::Long(l) => TagModel::Long(l),
        NbtTag::Float(s) => TagModel::Float(s@),
        NbtTag::Double(s) => TagModel::Double(s@),
        NbtTag::String(s) => TagModel::Str(s@),
        NbtTag::ByteArray(v) => TagModel::ByteArray(v@),
        NbtTag::IntArray(v) => TagModel::IntArray(v@),
        NbtTag::LongArray(v) => TagModel::LongArray(v@),
        NbtTag::List(l) => TagModel::List(list_model(l)),
        NbtTag::Compound(c) => TagModel::Compound(entries_model(c.entries@)),
    }
}

/// The model of a list tag.
pub open spec fn list_model(l: NbtList) -> ListModel
    decreases l,
{
    match l {
        NbtList::Empty => ListModel::Empty,
        NbtList::Byte(v) => ListModel::Byte(v@),
        NbtList::Int(v) => ListModel::Int(v@),
        NbtList::Long(v) => ListModel::Long(v@),
        NbtList::Float(v) => ListModel::Float(strings_model(v@)),
        NbtList::Double(v) => ListModel::Double(strings_model(v@)),
        NbtList::String(v) => ListModel::Str(strings_model(v@)),
        NbtList::Compound(v) => ListModel::Compound(compounds_model(v@)),
    }
}

/// The model of the entries of a compound.
pub open spec fn entries_model(es: Seq<(String, NbtTag)>) -> Seq<(Seq<char>, TagModel)>
    decreases es,
{
    if es.len() == 0 {
        Seq::empty()
    } else {
        entries_model(es.drop_last()).push((es.last().0@, tag_model(es.last().1)))
    }
}

/// The model of a sequence of compounds.
pub open spec fn compounds_model(cs: Seq<NbtCompound>) -> Seq<Seq<(Seq<char>, TagModel)>>
    decreases cs,
{
    if cs.len() == 0 {
        Seq::empty()
    } else {
        compounds_model(cs.drop_last()).push(entries_model(cs.last().entries@))
    }
}

/// The models of a sequence of tags.
pub open spec fn tags_model(v: Seq<NbtTag>) -> Seq<TagModel> {
    v.map_values(|t: NbtTag| tag_model(t))
}

// ---------------------------------------------------------------------------
// The grammar, as functions from the input text and a position to what is
// read there and the position after it.
// ---------------------------------------------------------------------------

/// `s` holds `c` at position `p`.
pub open spec fn at(s: Seq<char>, p: int, c: char) -> bool {
    0 <= p < s.len() && s[p] == c
}

/// A char that may appear in an unquoted key or a primitive.
pub open spec fn is_token_char(c: char) -> bool {
    alphanumeric(c) || c == '_' || c == '-' || c == '.' || c == '+'
}

/// The first position at or after `p` that does not hold whitespace.
pub open spec fn skip_ws(s: Seq<char>, p: int) -> int
    decreases s.len() - p,
{
    if 0 <= p < s.len() && is_whitespace_char(s[p]) {
        skip_ws(s, p + 1)
    } else {
        p
    }
}

/// The first position at or after `p` that does not hold a token char.
pub open spec fn token_end(s: Seq<char>, p: int) -> int
    decreases s.len() - p,
{
    if 0 <= p < s.len() && is_token_char(s[p]) {
        token_end(s, p + 1)
    } else {
        p
    }
}

/// The rest of a quoted string from `p` on: `acc` holds what was read since the
/// opening quote, `escape` whether the last char was an unused backslash.
pub open spec fn quoted_rest(s: Seq<char>, p: int, acc: Seq<char>, escape: bool) -> Option<
    (Seq<char>, int),
>
    decreases s.len() - p,
{
    if p < 0 || p >= s.len() {
        None
    } else if escape {
        quoted_rest(s, p + 1, acc.push(s[p]), false)
    } else if s[p] == '\\' {
        quoted_rest(s, p + 1, acc, true)
    } else if s[p] == '"' {
        Some((acc, p + 1))
    } else {
        quoted_rest(s, p + 1, acc.push(s[p]), false)
    }
}

/// A quoted string at `p`: a backslash makes the next char literal.
pub open spec fn quoted_of(s: Seq<char>, p: int) -> Option<(Seq<char>, int)> {
    if at(s, p, '"') {
        quoted_rest(s, p + 1, Seq::empty(), false)
    } else {
        None
    }
}

/// An unquoted string at `p`: one or more token chars.
pub open spec fn unquoted_of(s: Seq<char>, p: int) -> Option<(Seq<char>, int)> {
    let e = token_end(s, p);
    if e > p {
        Some((s.subrange(p, e), e))
    } else {
        None
    }
}

/// A compound key at `p`: quoted when it starts with a quote.
pub open spec fn key_of(s: Seq<char>, p: int) -> Option<(Seq<char>, int)> {
    if at(s, p, '"') {
        quoted_of(s, p)
    } else {
        unquoted_of(s, p)
    }
}

pub open spec fn ends_with(t: Seq<char>, c: char) -> bool {
    t.len() > 0 && t.last() == c
}

pub open spec fn contains_char(t: Seq<char>, c: char) -> bool {
    exists|i: int| 0 <= i < t.len() && t[i] == c
}

/// The tag that a primitive token stands for.
///
/// `true` and `false` (in any case) are bytes; a suffix `b`, `s`, `l`, `f` or `d`
/// (in any case) makes a byte, short, long, float or double when the rest reads
/// as one; a token with a `.` that reads as a float is a double; a token that
/// reads as an `i32` is an int; anything else is a string.
pub open spec fn token_tag(tok: Seq<char>) -> TagModel {
    let lower = lowercase(tok);
    let body = tok.drop_last();
    if lower == seq!['t', 'r', 'u', 'e'] {
        TagModel::Byte(1)
    } else if lower == seq!['f', 'a', 'l', 's', 'e'] {
        TagModel::Byte(0)
    } else if ends_with(lower, 'b') && int_literal_in(body, -128, 127) is Some {
        TagModel::Byte(int_literal_in(body, -128, 127)->0 as i8)
    } else if ends_with(lower, 's') && int_literal_in(body, -32768, 32767) is Some {
        TagModel::Short(int_literal_in(body, -32768, 32767)->0 as i16)
    } else if ends_with(lower, 'l') && int_literal_in(body, i64::MIN as int, i64::MAX as int) is Some {
        TagModel::Long(int_literal_in(body, i64::MIN as int, i64::MAX as int)->0 as i64)
    } else if ends_with(lower, 'f') && is_float_literal(body) {
        TagModel::Float(body)
    } else if ends_with(lower, 'd') && is_float_literal(body) {
        TagModel::Double(body)
    } else if contains_char(tok, '.') && is_float_literal(tok) {
        TagModel::Double(tok)
    } else if int_literal_in(tok, i32::MIN as int, i32::MAX as int) is Some {
        TagModel::Int(int_literal_in(tok, i32::MIN as int, i32::MAX as int)->0 as i32)
    } else {
        TagModel::Str(tok)
    }
}

/// A primitive at `p`: one or more token chars, read by [`token_tag`].
pub open spec fn primitive_of(s: Seq<char>, p: int) -> Option<(TagModel, int)> {
    let e = token_end(s, p);
    if e > p {
        Some((token_tag(s.subrange(p, e)), e))
    } else {
        None
    }
}

/// The elements of a typed array from `p` on, after those in `acc`, up to the closing `]`.
pub open spec fn array_items(s: Seq<char>, p: int, acc: Seq<TagModel>) -> Option<
    (Seq<TagModel>, int),
>
    decreases s.len() - p,
{
    let p1 = skip_ws(s, p);
    if at(s, p1, ']') {
        Some((acc, p1 + 1))
    } else if acc.len() > 0 && !at(s, p1, ',') {
        None
    } else {
        let p2 = if acc.len() > 0 {
            p1 + 1
        } else {
            p1
        };
        let p3 = skip_ws(s, p2);
        if at(s, p3, ']') {
            Some((acc, p3 + 1))
        } else {
            match primitive_of(s, p3) {
                None => None,
                Some((v, p4)) => if p < p4 <= s.len() {
                    array_items(s, p4, acc.push(v))
                } else {
                    None
                },
            }
        }
    }
}

/// The bytes of a `[B;...]` array: bytes as they are, ints truncated, the rest dropped.
pub open spec fn array_bytes(vals: Seq<TagModel>) -> Seq<u8>
    decreases vals.len(),
{
    if vals.len() == 0 {
        Seq::empty()
    } else {
        let r = array_bytes(vals.drop_last());
        match vals.last() {
            TagModel::Byte(b) => r.push(b as u8),
            TagModel::Int(i) => r.push(i as u8),
            _ => r,
        }
    }
}

/// The ints of an `[I;...]` array: ints and widened bytes, the rest dropped.
pub open spec fn array_ints(vals: Seq<TagModel>) -> Seq<i32>
    decreases vals.len(),
{
    if vals.len() == 0 {
        Seq::empty()
    } else {
        let r = array_ints(vals.drop_last());
        match vals.last() {
            TagModel::Int(i) => r.push(i),
            TagModel::Byte(b) => r.push(b as i32),
            _ => r,
        }
    }
}

/// The longs of an `[L;...]` array: longs and widened ints, the rest dropped.
pub open spec fn array_longs(vals: Seq<TagModel>) -> Seq<i64>
    decreases vals.len(),
{
    if vals.len() == 0 {
        Seq::empty()
    } else {
        let r = array_longs(vals.drop_last());
        match vals.last() {
            TagModel::Long(l) => r.push(l),
            TagModel::Int(i) => r.push(i as i64),
            _ => r,
        }
    }
}

/// A typed array whose elements start at `p` (after `X;`), `kind` being `X`.
pub open spec fn typed_array_of(s: Seq<char>, p: int, kind: char) -> Option<(TagModel, int)> {
    match array_items(s, p, Seq::empty()) {
        None => None,
        Some((vals, e)) => if kind == 'B' {
            Some((TagModel::ByteArray(array_bytes(vals)), e))
        } else if kind == 'I' {
            Some((TagModel::IntArray(array_ints(vals)), e))
        } else if kind == 'L' {
            Some((TagModel::LongArray(array_longs(vals)), e))
        } else {
            None
        },
    }
}

/// The bytes among list elements.
pub open spec fn list_bytes(vals: Seq<TagModel>) -> Seq<i8>
    decreases vals.len(),
{
    if vals.len() == 0 {
        Seq::empty()
    } else {
        let r = list_bytes(vals.drop_last());
        match vals.last() {
            TagModel::Byte(b) => r.push(b),
            _ => r,
        }
    }
}

/// The ints among list elements.
pub open spec fn list_ints(vals: Seq<TagModel>) -> Seq<i32>
    decreases vals.len(),
{
    if vals.len() == 0 {
        Seq::empty()
    } else {
        let r = list_ints(vals.drop_last());
        match vals.last() {
            TagModel::Int(i) => r.push(i),
            _ => r,
        }
    }
}

/// The longs among list elements.
pub open spec fn list_longs(vals: Seq<TagModel>) -> Seq<i64>
    decreases vals.len(),
{
    if vals.len() == 0 {
        Seq::empty()
    } else {
        let r = list_longs(vals.drop_last());
        match vals.last() {
            TagModel::Long(l) => r.push(l),
            _ => r,
        }
    }
}

/// The floats among list elements.
pub open spec fn list_floats(vals: Seq<TagModel>) -> Seq<Seq<char>>
    decreases vals.len(),
{
    if vals.len() == 0 {
        Seq::empty()
    } else {
        let r = list_floats(vals.drop_last());
        match vals.last() {
            TagModel::Float(f) => r.push(f),
            _ => r,
        }
    }
}

/// The doubles among list elements.
pub open spec fn list_doubles(vals: Seq<TagModel>) -> Seq<Seq<char>>
    decreases vals.len(),
{
    if vals.len() == 0 {
        Seq::empty()
    } else {
        let r = list_doubles(vals.drop_last());
        match vals.last() {
            TagModel::Double(d) => r.push(d),
            _ => r,
        }
    }
}

/// The strings among list elements.
pub open spec fn list_strings(vals: Seq<TagModel>) -> Seq<Seq<char>>
    decreases vals.len(),
{
    if vals.len() == 0 {
        Seq::empty()
    } else {
        let r = list_strings(vals.drop_last());
        match vals.last() {
            TagModel::Str(t) => r.push(t),
            _ => r,
        }
    }
}

/// The compounds among list elements.
pub open spec fn list_compounds(vals: Seq<TagModel>) -> Seq<Seq<(Seq<char>, TagModel)>>
    decreases vals.len(),
{
    if vals.len() == 0 {
        Seq::empty()
    } else {
        let r = list_compounds(vals.drop_last());
        match vals.last() {
            TagModel::Compound(c) => r.push(c),
            _ => r,
        }
    }
}

/// A list built from its elements: the first element's type decides the list's
/// type, and elements of another type are dropped.
pub open spec fn list_from(vals: Seq<TagModel>) -> ListModel {
    if vals.len() == 0 {
        ListModel::Empty
    } else {
        match vals[0] {
            TagModel::Byte(_) => ListModel::Byte(list_bytes(vals)),
            TagModel::Int(_) => ListModel::Int(list_ints(vals)),
            TagModel::Long(_) => ListModel::Long(list_longs(vals)),
            TagModel::Float(_) => ListModel::Float(list_floats(vals)),
            TagModel::Double(_) => ListModel::Double(list_doubles(vals)),
            TagModel::Str(_) => ListModel::Str(list_strings(vals)),
            TagModel::Compound(_) => ListModel::Compound(list_compounds(vals)),
            _ => ListModel::Empty,
        }
    }
}

/// The value of a tag of kind `Byte`, if it is one.
pub open spec fn byte_value(t: TagModel) -> Option<i8> {
    match t {
        TagModel::Byte(v) => Some(v),
        _ => None,
    }
}

proof fn lemma_list_bytes(vals: Seq<TagModel>)
    ensures
        list_bytes(vals) == vals.filter_map(|t: TagModel| byte_value(t)),
    decreases vals.len(),
{
    if vals.len() > 0 {
        lemma_list_bytes(vals.drop_last());
        let f = |t: TagModel| byte_value(t);
        match vals.last() {
            TagModel::Byte(v) => {
                assert(list_bytes(vals.drop_last()).push(v) =~= vals.drop_last().filter_map(f) + seq![v]);
            },
            _ => {},
        }
    }
}

/// The value of a tag of kind `Int`, if it is one.
pub open spec fn int_value(t: TagModel) -> Option<i32> {
    match t {
        TagModel::Int(v) => Some(v),
        _ => None,
    }
}

proof fn lemma_list_ints(vals: Seq<TagModel>)
    ensures
        list_ints(vals) == vals.filter_map(|t: TagModel| int_value(t)),
    decreases vals.len(),
{
    if vals.len() > 0 {
        lemma_list_ints(vals.drop_last());
        let f = |t: TagModel| int_value(t);
        match vals.last() {
            TagModel::Int(v) => {
                assert(list_ints(vals.drop_last()).push(v) =~= vals.drop_last().filter_map(f) + seq![v]);
            },
            _ => {},
        }
    }
}

/// The value of a tag of kind `Long`, if it is one.
pub open spec fn long_value(t: TagModel) -> Option<i64> {
    match t {
        TagModel::Long(v) => Some(v),
        _ => None,
    }
}

proof fn lemma_list_longs(vals: Seq<TagModel>)
    ensures
        list_longs(vals) == vals.filter_map(|t: TagModel| long_value(t)),
    decreases vals.len(),
{
    if vals.len() > 0 {
        lemma_list_longs(vals.drop_last());
        let f = |t: TagModel| long_value(t);
        match vals.last() {
            TagModel::Long(v) => {
                assert(list_longs(vals.drop_last()).push(v) =~= vals.drop_last().filter_map(f) + seq![v]);
            },
            _ => {},
        }
    }
}

/// The value of a tag of kind `Float`, if it is one.
pub open spec fn float_value(t: TagModel) -> Option<Seq<char>> {
    match t {
        TagModel::Float(v) => Some(v),
        _ => None,
    }
}

proof fn lemma_list_floats(vals: Seq<TagModel>)
    ensures
        list_floats(vals) == vals.filter_map(|t: TagModel| float_value(t)),
    decreases vals.len(),
{
    if vals.len() > 0 {
        lemma_list_floats(vals.drop_last());
        let f = |t: TagModel| float_value(t);
        match vals.last() {
            TagModel::Float(v) => {
                assert(list_floats(vals.drop_last()).push(v) =~= vals.drop_last().filter_map(f) + seq![v]);
            },
            _ => {},
        }
    }
}

/// The value of a tag of kind `Double`, if it is one.
pub open spec fn double_value(t: TagModel) -> Option<Seq<char>> {
    match t {
        TagModel::Double(v) => Some(v),
        _ => None,
    }
}

proof fn lemma_list_doubles(vals: Seq<TagModel>)
    ensures
        list_doubles(vals) == vals.filter_map(|t: TagModel| double_value(t)),
    decreases vals.len(),
{
    if vals.len() > 0 {
        lemma_list_doubles(vals.drop_last());
        let f = |t: TagModel| double_value(t);
        match vals.last() {
            TagModel::Double(v) => {
                assert(list_doubles(vals.drop_last()).push(v) =~= vals.drop_last().filter_map(f) + seq![v]);
            },
            _ => {},
        }
    }
}

/// The value of a tag of kind `Str`, if it is one.
pub open spec fn str_value(t: TagModel) -> Option<Seq<char>> {
    match t {
        TagModel::Str(v) => Some(v),
        _ => None,
    }
}

proof fn lemma_list_strings(vals: Seq<TagModel>)
    ensures
        list_strings(vals) == vals.filter_map(|t: TagModel| str_value(t)),
    decreases vals.len(),
{
    if vals.len() > 0 {
        lemma_list_strings(vals.drop_last());
        let f = |t: TagModel| str_value(t);
        match vals.last() {
            TagModel::Str(v) => {
                assert(list_strings(vals.drop_last()).push(v) =~= vals.drop_last().filter_map(f) + seq![v]);
            },
            _ => {},
        }
    }
}

/// The value of a tag of kind `Compound`, if it is one.
pub open spec fn compound_value(t: TagModel) -> Option<Seq<(Seq<char>, TagModel)>> {
    match t {
        TagModel::Compound(v) => Some(v),
        _ => None,
    }
}

proof fn lemma_list_compounds(vals: Seq<TagModel>)
    ensures
        list_compounds(vals) == vals.filter_map(|t: TagModel| compound_value(t)),
    decreases vals.len(),
{
    if vals.len() > 0 {
        lemma_list_compounds(vals.drop_last());
        let f = |t: TagModel| compound_value(t);
        match vals.last() {
            TagModel::Compound(v) => {
                assert(list_compounds(vals.drop_last()).push(v) =~= vals.drop_last().filter_map(f) + seq![v]);
            },
            _ => {},
        }
    }
}

/// A list takes the kind of its first element and holds, in order, exactly the
/// elements of that kind; an empty list, or one whose first element is of a
/// kind lists do not hold (short, array, list), is the empty list.
pub proof fn law_list_kind_follows_first(vals: Seq<TagModel>)
    ensures
        vals.len() == 0 ==> list_from(vals) == ListModel::Empty,
        vals.len() > 0 ==> match vals[0] {
            TagModel::Byte(_) => list_from(vals) == ListModel::Byte(vals.filter_map(|t: TagModel| byte_value(t))),
            TagModel::Int(_) => list_from(vals) == ListModel::Int(vals.filter_map(|t: TagModel| int_value(t))),
            TagModel::Long(_) => list_from(vals) == ListModel::Long(vals.filter_map(|t: TagModel| long_value(t))),
            TagModel::Float(_) => list_from(vals) == ListModel::Float(vals.filter_map(|t: TagModel| float_value(t))),
            TagModel::Double(_) => list_from(vals) == ListModel::Double(vals.filter_map(|t: TagModel| double_value(t))),
            TagModel::Str(_) => list_from(vals) == ListModel::Str(vals.filter_map(|t: TagModel| str_value(t))),
            TagModel::Compound(_) => list_from(vals) == ListModel::Compound(vals.filter_map(|t: TagModel| compound_value(t))),
            _ => list_from(vals) == ListModel::Empty,
        },
{
    lemma_list_bytes(vals);
    lemma_list_ints(vals);
    lemma_list_longs(vals);
    lemma_list_floats(vals);
    lemma_list_doubles(vals);
    lemma_list_strings(vals);
    lemma_list_compounds(vals);
}

pub proof fn lemma_skip_ws(s: Seq<char>, p: int)
    ensures
        skip_ws(s, p) >= p,
        0 <= p <= s.len() ==> skip_ws(s, p) <= s.len(),
    decreases s.len() - p,
{
    if 0 <= p < s.len() && is_whitespace_char(s[p]) {
        lemma_skip_ws(s, p + 1);
    }
}

pub proof fn lemma_token_end(s: Seq<char>, p: int)
    ensures
        token_end(s, p) >= p,
        0 <= p <= s.len() ==> token_end(s, p) <= s.len(),
    decreases s.len() - p,
{
    if 0 <= p < s.len() && is_token_char(s[p]) {
        lemma_token_end(s, p + 1);
    }
}

/// A value at `p`, after any whitespace.
pub open spec fn value_of(s: Seq<char>, p: int) -> Option<(TagModel, int)>
    decreases s.len() - p, 1int,
{
    let q = skip_ws(s, p);
    proof {
        lemma_skip_ws(s, p);
    }
    if q < 0 || q >= s.len() {
        None
    } else if s[q] == '{' {
        compound_of(s, q)
    } else if s[q] == '[' {
        list_or_array_of(s, q)
    } else if s[q] == '"' {
        match quoted_of(s, q) {
            Some((t, e)) => Some((TagModel::Str(t), e)),
            None => None,
        }
    } else {
        primitive_of(s, q)
    }
}

/// A compound at `p`: `{`, entries `key: value` separated by commas, `}`.
pub open spec fn compound_of(s: Seq<char>, p: int) -> Option<(TagModel, int)>
    decreases s.len() - p, 0int,
{
    if !at(s, p, '{') {
        None
    } else {
        let q = skip_ws(s, p + 1);
        proof {
            lemma_skip_ws(s, p + 1);
        }
        if at(s, q, '}') {
            Some((TagModel::Compound(Seq::empty()), q + 1))
        } else {
            match compound_entries(s, q, Seq::empty()) {
                Some((es, e)) => Some((TagModel::Compound(es), e)),
                None => None,
            }
        }
    }
}

/// The entries of a compound from `p` on, after those in `acc`, up to the closing `}`.
pub open spec fn compound_entries(s: Seq<char>, p: int, acc: Seq<(Seq<char>, TagModel)>) -> Option<
    (Seq<(Seq<char>, TagModel)>, int),
>
    decreases s.len() - p, 2int,
{
    let p1 = skip_ws(s, p);
    proof {
        lemma_skip_ws(s, p);
    }
    match key_of(s, p1) {
        None => None,
        Some((k, p2)) => {
            let p3 = skip_ws(s, p2);
            if !at(s, p3, ':') {
                None
            } else {
                let p4 = skip_ws(s, p3 + 1);
                proof {
                    lemma_skip_ws(s, p3 + 1);
                }
                if p4 < p {
                    None
                } else {
                    match value_of(s, p4) {
                        None => None,
                        Some((v, p5)) => {
                            let acc2 = acc.push((k, v));
                            let p6 = skip_ws(s, p5);
                            if at(s, p6, '}') {
                                Some((acc2, p6 + 1))
                            } else if at(s, p6, ',') && p6 >= p {
                                compound_entries(s, p6 + 1, acc2)
                            } else {
                                None
                            }
                        },
                    }
                }
            }
        },
    }
}

/// A list or a typed array at `p`.
pub open spec fn list_or_array_of(s: Seq<char>, p: int) -> Option<(TagModel, int)>
    decreases s.len() - p, 0int,
{
    if !at(s, p, '[') {
        None
    } else {
        let q = skip_ws(s, p + 1);
        proof {
            lemma_skip_ws(s, p + 1);
        }
        if 0 <= q < s.len() && (s[q] == 'B' || s[q] == 'I' || s[q] == 'L') && at(s, q + 1, ';') {
            typed_array_of(s, q + 2, s[q])
        } else {
            list_of(s, q)
        }
    }
}

/// A list whose elements start at `p` (after `[`).
pub open spec fn list_of(s: Seq<char>, p: int) -> Option<(TagModel, int)>
    decreases s.len() - p, 3int,
{
    match list_items(s, p, Seq::empty()) {
        None => None,
        Some((vals, e)) => Some((TagModel::List(list_from(vals)), e)),
    }
}

/// The elements of a list from `p` on, after those in `acc`, up to the closing `]`.
pub open spec fn list_items(s: Seq<char>, p: int, acc: Seq<TagModel>) -> Option<
    (Seq<TagModel>, int),
>
    decreases s.len() - p, 2int,
{
    let p1 = skip_ws(s, p);
    proof {
        lemma_skip_ws(s, p);
    }
    if at(s, p1, ']') {
        Some((acc, p1 + 1))
    } else if acc.len() > 0 && !at(s, p1, ',') {
        None
    } else {
        let p2 = if acc.len() > 0 {
            p1 + 1
        } else {
            p1
        };
        let p3 = skip_ws(s, p2);
        proof {
            lemma_skip_ws(s, p2);
        }
        if at(s, p3, ']') {
            Some((acc, p3 + 1))
        } else {
            match value_of(s, p3) {
                None => None,
                Some((v, p4)) => if p < p4 <= s.len() {
                    list_items(s, p4, acc.push(v))
                } else {
                    None
                },
            }
        }
    }
}

// ---------------------------------------------------------------------------
// The reader.
// ---------------------------------------------------------------------------

impl NbtCompound {
    /// An empty compound.
    pub fn new() -> (c: Self)
        ensures
            c.entries@ == Seq::<(String, NbtTag)>::empty(),
    {
        NbtCompound { entries: Vec::new() }
    }

    /// Appends an entry; an entry with the same key stays in place.
    pub fn insert(&mut self, key: String, value: NbtTag)
        ensures
            final(self).entries@ == old(self).entries@.push((key, value)),
            entries_model(final(self).entries@) == entries_model(old(self).entries@).push(
                (key@, tag_model(value)),
            ),
    {
        let ghost before = self.entries@;
        self.entries.push((key, value));
        assert(self.entries@.drop_last() == before);
    }

    /// The value of the first entry whose key is `name`, if any.
    pub fn get(&self, name: &str) -> (r: Option<&NbtTag>)
        ensures
            match r {
                Some(t) => exists|i: int|
                    0 <= i < self.entries@.len() && self.entries@[i].0@ == name@ && *t
                        == self.entries@[i].1 && forall|j: int|
                        0 <= j < i ==> self.entries@[j].0@ != name@,
                None => forall|i: int|
                    0 <= i < self.entries@.len() ==> self.entries@[i].0@ != name@,
            },
    {
        let key = String::from_str(name);
        let mut i: usize = 0;
        while i < self.entries.len()
            invariant
                i <= self.entries@.len(),
                key@ == name@,
                forall|j: int| 0 <= j < i ==> self.entries@[j].0@ != name@,
            decreases self.entries@.len() - i,
        {
            if self.entries[i].0 == key {
                return Some(&self.entries[i].1);
            }
            i += 1;
        }
        None
    }

    /// The number of entries.
    pub fn len(&self) -> (n: usize)
        ensures
            n == self.entries@.len(),
    {
        self.entries.len()
    }
}

/// What a reader of a tag gives: the tag's model and the position after it.
pub open spec fn tag_result(r: Option<NbtTag>, p: int) -> Option<(TagModel, int)> {
    match r {
        Some(t) => Some((tag_model(t), p)),
        None => None,
    }
}

/// What a reader of a string gives: its chars and the position after it.
pub open spec fn text_result(r: Option<String>, p: int) -> Option<(Seq<char>, int)> {
    match r {
        Some(t) => Some((t@, p)),
        None => None,
    }
}

/// Whether `c` may appear in an unquoted key or a primitive.
fn is_token(c: char) -> (r: bool)
    ensures
        r == is_token_char(c),
{
    is_alphanumeric(c) || c == '_' || c == '-' || c == '.' || c == '+'
}

/// The tag that a primitive token stands for (see [`token_tag`]).
pub fn token_to_tag(tok: &[char]) -> (t: NbtTag)
    requires
        tok@.len() > 0,
    ensures
        tag_model(t) == token_tag(tok@),
{
    let n = tok.len();
    let lower = to_lowercase(tok);
    let body = &tok[0..n - 1];
    assert(body@ == tok@.drop_last());
    let true_word = ['t', 'r', 'u', 'e'];
    let false_word = ['f', 'a', 'l', 's', 'e'];
    assert(true_word@ == seq!['t', 'r', 'u', 'e']);
    assert(false_word@ == seq!['f', 'a', 'l', 's', 'e']);
    if chars_eq(lower.as_slice(), true_word.as_slice()) {
        return NbtTag::Byte(1);
    }
    if chars_eq(lower.as_slice(), false_word.as_slice()) {
        return NbtTag::Byte(0);
    }
    let has_last = lower.len() > 0;
    let last: char = if has_last { lower[lower.len() - 1] } else { ' ' };
    if has_last && last == 'b' {
        if let Some(v) = parse_int_in(body, -128, 127) {
            return NbtTag::Byte(v as i8);
        }
    }
    if has_last && last == 's' {
        if let Some(v) = parse_int_in(body, -32768, 32767) {
            return NbtTag::Short(v as i16);
        }
    }
    if has_last && last == 'l' {
        if let Some(v) = parse_int_in(body, i64::MIN, i64::MAX) {
            return NbtTag::Long(v);
        }
    }
    if has_last && last == 'f' && float_literal_ok(body) {
        return NbtTag::Float(string_of(body));
    }
    if has_last && last == 'd' && float_literal_ok(body) {
        return NbtTag::Double(string_of(body));
    }
    if contains(tok, '.') && float_literal_ok(tok) {
        return NbtTag::Double(string_of(tok));
    }
    if let Some(v) = parse_int_in(tok, i32::MIN as i64, i32::MAX as i64) {
        return NbtTag::Int(v as i32);
    }
    NbtTag::String(string_of(tok))
}

/// A reader over the chars of an SNBT text.
pub struct SnbtParser {
    pub input: Vec<char>,
    pub pos: usize,
}

impl SnbtParser {
    /// A reader at the start of `input`.
    pub fn new(input: &[char]) -> (r: Self)
        ensures
            r.input@ == input@,
            r.pos == 0,
    {
        SnbtParser { input: copy_chars(input), pos: 0 }
    }

    /// Whether the whole input has been read.
    pub fn is_empty(&self) -> (r: bool)
        ensures
            r == (self.pos >= self.input@.len()),
    {
        self.pos >= self.input.len()
    }

    /// The char at the reading position, if any.
    pub fn peek(&self) -> (r: Option<char>)
        ensures
            r == (if self.pos < self.input@.len() {
                Some(self.input@[self.pos as int])
            } else {
                None
            }),
    {
        if self.pos < self.input.len() {
            Some(self.input[self.pos])
        } else {
            None
        }
    }

    /// Moves past any whitespace.
    pub fn skip_whitespace(&mut self)
        requires
            old(self).pos <= old(self).input@.len(),
        ensures
            final(self).input@ == old(self).input@,
            final(self).pos == skip_ws(old(self).input@, old(self).pos as int),
            old(self).pos <= final(self).pos <= final(self).input@.len(),
    {
        proof {
            lemma_skip_ws(self.input@, self.pos as int);
        }
        while self.pos < self.input.len() && is_whitespace(self.input[self.pos])
            invariant
                self.input@ == old(self).input@,
                self.pos <= self.input@.len(),
                skip_ws(self.input@, self.pos as int) == skip_ws(old(self).input@, old(self).pos as int),
            decreases self.input@.len() - self.pos,
        {
            self.pos += 1;
        }
    }

    /// Moves past `expected` when it is the char at the reading position.
    pub fn consume(&mut self, expected: char) -> (r: bool)
        requires
            old(self).pos <= old(self).input@.len(),
        ensures
            final(self).input@ == old(self).input@,
            r == at(old(self).input@, old(self).pos as int, expected),
            final(self).pos == if r { old(self).pos + 1 } else { old(self).pos as int },
            final(self).pos <= final(self).input@.len(),
    {
        if self.pos < self.input.len() && self.input[self.pos] == expected {
            self.pos += 1;
            true
        } else {
            false
        }
    }

    /// Reads a compound key: quoted when it starts with a quote, else unquoted.
    pub fn parse_key(&mut self) -> (r: Option<String>)
        requires
            old(self).pos <= old(self).input@.len(),
        ensures
            final(self).input@ == old(self).input@,
            final(self).pos <= final(self).input@.len(),
            key_of(old(self).input@, old(self).pos as int) == text_result(r, final(self).pos as int),
            r is Some ==> final(self).pos > old(self).pos,
    {
        if self.pos < self.input.len() && self.input[self.pos] == '"' {
            self.parse_quoted_string()
        } else {
            self.parse_unquoted_string()
        }
    }

    /// Reads a quoted string; a backslash makes the next char literal.
    pub fn parse_quoted_string(&mut self) -> (r: Option<String>)
        requires
            old(self).pos <= old(self).input@.len(),
        ensures
            final(self).input@ == old(self).input@,
            final(self).pos <= final(self).input@.len(),
            quoted_of(old(self).input@, old(self).pos as int) == text_result(r, final(self).pos as int),
            r is Some ==> final(self).pos > old(self).pos,
    {
        if !self.consume('"') {
            return None;
        }
        let mut result = String::new();
        let mut escape_next = false;
        while self.pos < self.input.len()
            invariant
                self.input@ == old(self).input@,
                old(self).pos < self.pos <= self.input@.len(),
                quoted_of(old(self).input@, old(self).pos as int) == quoted_rest(
                    self.input@,
                    self.pos as int,
                    result@,
                    escape_next,
                ),
            decreases self.input@.len() - self.pos,
        {
            let c = self.input[self.pos];
            self.pos += 1;
            if escape_next {
                push_char(&mut result, c);
                escape_next = false;
            } else if c == '\\' {
                escape_next = true;
            } else if c == '"' {
                return Some(result);
            } else {
                push_char(&mut result, c);
            }
        }
        None
    }

    /// Moves past token chars; returns where they started.
    fn scan_token(&mut self) -> (start: usize)
        requires
            old(self).pos <= old(self).input@.len(),
        ensures
            final(self).input@ == old(self).input@,
            start == old(self).pos,
            final(self).pos == token_end(old(self).input@, old(self).pos as int),
            start <= final(self).pos <= final(self).input@.len(),
    {
        proof {
            lemma_token_end(self.input@, self.pos as int);
        }
        let start = self.pos;
        while self.pos < self.input.len() && is_token(self.input[self.pos])
            invariant
                self.input@ == old(self).input@,
                start == old(self).pos,
                self.pos <= self.input@.len(),
                token_end(self.input@, self.pos as int) == token_end(old(self).input@, start as int),
            decreases self.input@.len() - self.pos,
        {
            self.pos += 1;
        }
        start
    }

    /// Reads an unquoted string: one or more token chars.
    pub fn parse_unquoted_string(&mut self) -> (r: Option<String>)
        requires
            old(self).pos <= old(self).input@.len(),
        ensures
            final(self).input@ == old(self).input@,
            final(self).pos <= final(self).input@.len(),
            unquoted_of(old(self).input@, old(self).pos as int) == text_result(r, final(self).pos as int),
            r is Some ==> final(self).pos > old(self).pos,
    {
        let start = self.scan_token();
        if self.pos > start {
            let token = &self.input.as_slice()[start..self.pos];
            Some(string_of(token))
        } else {
            None
        }
    }

    /// Reads a primitive: a token read by [`token_tag`].
    pub fn parse_primitive(&mut self) -> (r: Option<NbtTag>)
        requires
            old(self).pos <= old(self).input@.len(),
        ensures
            final(self).input@ == old(self).input@,
            final(self).pos <= final(self).input@.len(),
            primitive_of(old(self).input@, old(self).pos as int) == tag_result(r, final(self).pos as int),
            r is Some ==> final(self).pos > old(self).pos,
    {
        let start = self.scan_token();
        if self.pos == start {
            return None;
        }
        let token = &self.input.as_slice()[start..self.pos];
        Some(token_to_tag(token))
    }

    /// Reads a value, after any whitespace: a compound, a list or array, a
    /// quoted string or a primitive.
    pub fn parse_value(&mut self) -> (r: Option<NbtTag>)
        requires
            old(self).pos <= old(self).input@.len(),
        ensures
            final(self).input@ == old(self).input@,
            final(self).pos <= final(self).input@.len(),
            value_of(old(self).input@, old(self).pos as int) == tag_result(r, final(self).pos as int),
            r is Some ==> final(self).pos > old(self).pos,
        decreases old(self).input@.len() - old(self).pos, 1int,
    {
        self.skip_whitespace();
        if self.pos >= self.input.len() {
            return None;
        }
        let c = self.input[self.pos];
        if c == '{' {
            self.parse_compound()
        } else if c == '[' {
            self.parse_list_or_array()
        } else if c == '"' {
            match self.parse_quoted_string() {
                Some(t) => Some(NbtTag::String(t)),
                None => None,
            }
        } else {
            self.parse_primitive()
        }
    }

    /// Reads a compound: `{`, entries `key: value` separated by commas, `}`.
    pub fn parse_compound(&mut self) -> (r: Option<NbtTag>)
        requires
            old(self).pos <= old(self).input@.len(),
        ensures
            final(self).input@ == old(self).input@,
            final(self).pos <= final(self).input@.len(),
            compound_of(old(self).input@, old(self).pos as int) == tag_result(r, final(self).pos as int),
            r is Some ==> final(self).pos > old(self).pos,
        decreases old(self).input@.len() - old(self).pos, 0int,
    {
        if !self.consume('{') {
            return None;
        }
        let mut compound = NbtCompound::new();
        self.skip_whitespace();
        if self.consume('}') {
            return Some(NbtTag::Compound(compound));
        }
        let ghost q = self.pos;
        assert(entries_model(compound.entries@) == Seq::<(Seq<char>, TagModel)>::empty());
        loop
            invariant
                self.input@ == old(self).input@,
                old(self).pos < q <= self.pos <= self.input@.len(),
                compound_of(old(self).input@, old(self).pos as int) == match compound_entries(
                    self.input@,
                    q as int,
                    Seq::empty(),
                ) {
                    Some((es, e)) => Some((TagModel::Compound(es), e)),
                    None => None,
                },
                compound_entries(self.input@, q as int, Seq::empty()) == compound_entries(
                    self.input@,
                    self.pos as int,
                    entries_model(compound.entries@),
                ),
            decreases self.input@.len() - self.pos,
        {
            self.skip_whitespace();
            let key = match self.parse_key() {
                Some(k) => k,
                None => {
                    return None;
                },
            };
            self.skip_whitespace();
            if !self.consume(':') {
                return None;
            }
            self.skip_whitespace();
            let value = match self.parse_value() {
                Some(v) => v,
                None => {
                    return None;
                },
            };
            compound.insert(key, value);
            self.skip_whitespace();
            if self.consume('}') {
                return Some(NbtTag::Compound(compound));
            }
            if !self.consume(',') {
                return None;
            }
        }
    }

    /// Reads a list `[v, ...]` or a typed array `[B;...]`, `[I;...]`, `[L;...]`.
    pub fn parse_list_or_array(&mut self) -> (r: Option<NbtTag>)
        requires
            old(self).pos <= old(self).input@.len(),
        ensures
            final(self).input@ == old(self).input@,
            final(self).pos <= final(self).input@.len(),
            list_or_array_of(old(self).input@, old(self).pos as int) == tag_result(
                r,
                final(self).pos as int,
            ),
            r is Some ==> final(self).pos > old(self).pos,
        decreases old(self).input@.len() - old(self).pos, 0int,
    {
        if !self.consume('[') {
            return None;
        }
        self.skip_whitespace();
        if self.pos < self.input.len() {
            let c = self.input[self.pos];
            if (c == 'B' || c == 'I' || c == 'L') && self.pos + 1 < self.input.len() && self.input[self.pos
                + 1] == ';' {
                self.pos = self.pos + 2;
                return self.parse_typed_array(c);
            }
        }
        self.parse_list()
    }

    /// Reads the elements of a typed array (after its `X;`), `array_type` being `X`.
    pub fn parse_typed_array(&mut self, array_type: char) -> (r: Option<NbtTag>)
        requires
            old(self).pos <= old(self).input@.len(),
        ensures
            final(self).input@ == old(self).input@,
            final(self).pos <= final(self).input@.len(),
            typed_array_of(old(self).input@, old(self).pos as int, array_type) == tag_result(
                r,
                final(self).pos as int,
            ),
            r is Some ==> final(self).pos > old(self).pos,
    {
        let mut values: Vec<NbtTag> = Vec::new();
        let ghost q = self.pos;
        assert(tags_model(values@) =~= Seq::<TagModel>::empty());
        loop
            invariant
                self.input@ == old(self).input@,
                q == old(self).pos,
                q <= self.pos <= self.input@.len(),
                array_items(self.input@, q as int, Seq::empty()) == array_items(
                    self.input@,
                    self.pos as int,
                    tags_model(values@),
                ),
            decreases self.input@.len() - self.pos,
        {
            let ghost p = self.pos;
            self.skip_whitespace();
            let mut done = self.consume(']');
            if !done {
                if values.len() > 0 && !self.consume(',') {
                    return None;
                }
                self.skip_whitespace();
                done = self.consume(']');
            }
            if done {
                assert(array_items(self.input@, q as int, Seq::empty()) == Some((tags_model(values@), self.pos as int)));
                if array_type == 'B' {
                    return Some(NbtTag::ByteArray(to_byte_array(&values)));
                } else if array_type == 'I' {
                    return Some(NbtTag::IntArray(to_int_array(&values)));
                } else if array_type == 'L' {
                    return Some(NbtTag::LongArray(to_long_array(&values)));
                } else {
                    return None;
                }
            }
            let v = match self.parse_primitive() {
                Some(v) => v,
                None => {
                    return None;
                },
            };
            let ghost before = values@;
            values.push(v);
            assert(tags_model(values@) == tags_model(before).push(tag_model(v)));
        }
    }

    /// Reads the elements of a list (after its `[`) and builds the list.
    pub fn parse_list(&mut self) -> (r: Option<NbtTag>)
        requires
            old(self).pos <= old(self).input@.len(),
        ensures
            final(self).input@ == old(self).input@,
            final(self).pos <= final(self).input@.len(),
            list_of(old(self).input@, old(self).pos as int) == tag_result(r, final(self).pos as int),
            r is Some ==> final(self).pos > old(self).pos,
        decreases old(self).input@.len() - old(self).pos, 2int,
    {
        let mut values: Vec<NbtTag> = Vec::new();
        let ghost q = self.pos;
        assert(tags_model(values@) =~= Seq::<TagModel>::empty());
        loop
            invariant
                self.input@ == old(self).input@,
                q == old(self).pos,
                q <= self.pos <= self.input@.len(),
                list_items(self.input@, q as int, Seq::empty()) == list_items(
                    self.input@,
                    self.pos as int,
                    tags_model(values@),
                ),
            decreases self.input@.len() - self.pos,
        {
            let ghost p = self.pos;
            self.skip_whitespace();
            let mut done = self.consume(']');
            if !done {
                if values.len() > 0 && !self.consume(',') {
                    return None;
                }
                self.skip_whitespace();
                done = self.consume(']');
            }
            if done {
                assert(list_items(self.input@, q as int, Seq::empty()) == Some((tags_model(values@), self.pos as int)));
                return Some(NbtTag::List(tags_to_list(values)));
            }
            let v = match self.parse_value() {
                Some(v) => v,
                None => {
                    return None;
                },
            };
            let ghost before = values@;
            values.push(v);
            assert(tags_model(values@) == tags_model(before).push(tag_model(v)));
        }
    }
}

/// The bytes of a `[B;...]` array (see [`array_bytes`]).
fn to_byte_array(values: &Vec<NbtTag>) -> (out: Vec<u8>)
    ensures
        out@ == array_bytes(tags_model(values@)),
{
    let ghost m = tags_model(values@);
    let mut out: Vec<u8> = Vec::new();
    let mut i: usize = 0;
    while i < values.len()
        invariant
            i <= values.len(),
            m == tags_model(values@),
            out@ == array_bytes(m.take(i as int)),
        decreases values.len() - i,
    {
        assert(m.take(i + 1).drop_last() == m.take(i as int));
        assert(m.take(i + 1).last() == tag_model(values@[i as int]));
        match &values[i] {
            NbtTag::Byte(b) => out.push(*b as u8),
            NbtTag::Int(x) => out.push(*x as u8),
            _ => {},
        }
        i += 1;
    }
    assert(m.take(values.len() as int) == m);
    out
}

/// The ints of an `[I;...]` array (see [`array_ints`]).
fn to_int_array(values: &Vec<NbtTag>) -> (out: Vec<i32>)
    ensures
        out@ == array_ints(tags_model(values@)),
{
    let ghost m = tags_model(values@);
    let mut out: Vec<i32> = Vec::new();
    let mut i: usize = 0;
    while i < values.len()
        invariant
            i <= values.len(),
            m == tags_model(values@),
            out@ == array_ints(m.take(i as int)),
        decreases values.len() - i,
    {
        assert(m.take(i + 1).drop_last() == m.take(i as int));
        assert(m.take(i + 1).last() == tag_model(values@[i as int]));
        match &values[i] {
            NbtTag::Int(x) => out.push(*x),
            NbtTag::Byte(b) => out.push(*b as i32),
            _ => {},
        }
        i += 1;
    }
    assert(m.take(values.len() as int) == m);
    out
}

/// The longs of an `[L;...]` array (see [`array_longs`]).
fn to_long_array(values: &Vec<NbtTag>) -> (out: Vec<i64>)
    ensures
        out@ == array_longs(tags_model(values@)),
{
    let ghost m = tags_model(values@);
    let mut out: Vec<i64> = Vec::new();
    let mut i: usize = 0;
    while i < values.len()
        invariant
            i <= values.len(),
            m == tags_model(values@),
            out@ == array_longs(m.take(i as int)),
        decreases values.len() - i,
    {
        assert(m.take(i + 1).drop_last() == m.take(i as int));
        assert(m.take(i + 1).last() == tag_model(values@[i as int]));
        match &values[i] {
            NbtTag::Long(x) => out.push(*x),
            NbtTag::Int(x) => out.push(*x as i64),
            _ => {},
        }
        i += 1;
    }
    assert(m.take(values.len() as int) == m);
    out
}

/// The bytes among list elements (see [`list_bytes`]).
fn collect_bytes(values: &Vec<NbtTag>) -> (out: Vec<i8>)
    ensures
        out@ == list_bytes(tags_model(values@)),
{
    let ghost m = tags_model(values@);
    let mut out: Vec<i8> = Vec::new();
    let mut i: usize = 0;
    while i < values.len()
        invariant
            i <= values.len(),
            m == tags_model(values@),
            out@ == list_bytes(m.take(i as int)),
        decreases values.len() - i,
    {
        assert(m.take(i + 1).drop_last() == m.take(i as int));
        assert(m.take(i + 1).last() == tag_model(values@[i as int]));
        match &values[i] {
            NbtTag::Byte(x) => out.push(*x),
            _ => {},
        }
        i += 1;
    }
    assert(m.take(values.len() as int) == m);
    out
}

/// The ints among list elements (see [`list_ints`]).
fn collect_ints(values: &Vec<NbtTag>) -> (out: Vec<i32>)
    ensures
        out@ == list_ints(tags_model(values@)),
{
    let ghost m = tags_model(values@);
    let mut out: Vec<i32> = Vec::new();
    let mut i: usize = 0;
    while i < values.len()
        invariant
            i <= values.len(),
            m == tags_model(values@),
            out@ == list_ints(m.take(i as int)),
        decreases values.len() - i,
    {
        assert(m.take(i + 1).drop_last() == m.take(i as int));
        assert(m.take(i + 1).last() == tag_model(values@[i as int]));
        match &values[i] {
            NbtTag::Int(x) => out.push(*x),
            _ => {},
        }
        i += 1;
    }
    assert(m.take(values.len() as int) == m);
    out
}

/// The longs among list elements (see [`list_longs`]).
fn collect_longs(values: &Vec<NbtTag>) -> (out: Vec<i64>)
    ensures
        out@ == list_longs(tags_model(values@)),
{
    let ghost m = tags_model(values@);
    let mut out: Vec<i64> = Vec::new();
    let mut i: usize = 0;
    while i < values.len()
        invariant
            i <= values.len(),
            m == tags_model(values@),
            out@ == list_longs(m.take(i as int)),
        decreases values.len() - i,
    {
        assert(m.take(i + 1).drop_last() == m.take(i as int));
        assert(m.take(i + 1).last() == tag_model(values@[i as int]));
        match &values[i] {
            NbtTag::Long(x) => out.push(*x),
            _ => {},
        }
        i += 1;
    }
    assert(m.take(values.len() as int) == m);
    out
}

/// The float texts among list elements (see [`list_floats`]).
fn collect_floats(values: Vec<NbtTag>) -> (out: Vec<String>)
    ensures
        strings_model(out@) == list_floats(tags_model(values@)),
{
    let ghost m = tags_model(values@);
    let mut out: Vec<String> = Vec::new();
    for v in it: values.into_iter()
        invariant
            it.seq() == values@,
            m == tags_model(values@),
            strings_model(out@) == list_floats(m.take(it.index() as int)),
    {
        let ghost i = it.index();
        assert(m.take(i + 1).drop_last() == m.take(i));
        assert(m.take(i + 1).last() == tag_model(v));
        let ghost before = out@;
        match v {
            NbtTag::Float(x) => {
                out.push(x);
                assert(strings_model(out@) == strings_model(before).push(x@));
            },
            _ => {},
        }
    }
    assert(m.take(values@.len() as int) == m);
    out
}

/// The double texts among list elements (see [`list_doubles`]).
fn collect_doubles(values: Vec<NbtTag>) -> (out: Vec<String>)
    ensures
        strings_model(out@) == list_doubles(tags_model(values@)),
{
    let ghost m = tags_model(values@);
    let mut out: Vec<String> = Vec::new();
    for v in it: values.into_iter()
        invariant
            it.seq() == values@,
            m == tags_model(values@),
            strings_model(out@) == list_doubles(m.take(it.index() as int)),
    {
        let ghost i = it.index();
        assert(m.take(i + 1).drop_last() == m.take(i));
        assert(m.take(i + 1).last() == tag_model(v));
        let ghost before = out@;
        match v {
            NbtTag::Double(x) => {
                out.push(x);
                assert(strings_model(out@) == strings_model(before).push(x@));
            },
            _ => {},
        }
    }
    assert(m.take(values@.len() as int) == m);
    out
}

/// The string texts among list elements (see [`list_strings`]).
fn collect_strings(values: Vec<NbtTag>) -> (out: Vec<String>)
    ensures
        strings_model(out@) == list_strings(tags_model(values@)),
{
    let ghost m = tags_model(values@);
    let mut out: Vec<String> = Vec::new();
    for v in it: values.into_iter()
        invariant
            it.seq() == values@,
            m == tags_model(values@),
            strings_model(out@) == list_strings(m.take(it.index() as int)),
    {
        let ghost i = it.index();
        assert(m.take(i + 1).drop_last() == m.take(i));
        assert(m.take(i + 1).last() == tag_model(v));
        let ghost before = out@;
        match v {
            NbtTag::String(x) => {
                out.push(x);
                assert(strings_model(out@) == strings_model(before).push(x@));
            },
            _ => {},
        }
    }
    assert(m.take(values@.len() as int) == m);
    out
}

/// The compounds among list elements (see [`list_compounds`]).
fn collect_compounds(values: Vec<NbtTag>) -> (out: Vec<NbtCompound>)
    ensures
        compounds_model(out@) == list_compounds(tags_model(values@)),
{
    let ghost m = tags_model(values@);
    let mut out: Vec<NbtCompound> = Vec::new();
    for v in it: values.into_iter()
        invariant
            it.seq() == values@,
            m == tags_model(values@),
            compounds_model(out@) == list_compounds(m.take(it.index() as int)),
    {
        let ghost i = it.index();
        assert(m.take(i + 1).drop_last() == m.take(i));
        assert(m.take(i + 1).last() == tag_model(v));
        let ghost before = out@;
        match v {
            NbtTag::Compound(x) => {
                out.push(x);
                assert(out@.drop_last() == before);
            },
            _ => {},
        }
    }
    assert(m.take(values@.len() as int) == m);
    out
}

/// A list built from its elements (see [`list_from`]).
pub fn tags_to_list(values: Vec<NbtTag>) -> (l: NbtList)
    ensures
        list_model(l) == list_from(tags_model(values@)),
{
    if values.len() == 0 {
        return NbtList::Empty;
    }
    let kind: u8 = match &values[0] {
        NbtTag::Byte(_) => 0,
        NbtTag::Int(_) => 1,
        NbtTag::Long(_) => 2,
        NbtTag::Float(_) => 3,
        NbtTag::Double(_) => 4,
        NbtTag::String(_) => 5,
        NbtTag::Compound(_) => 6,
        _ => 7,
    };
    assert(tags_model(values@)[0] == tag_model(values@[0]));
    if kind == 0 {
        NbtList::Byte(collect_bytes(&values))
    } else if kind == 1 {
        NbtList::Int(collect_ints(&values))
    } else if kind == 2 {
        NbtList::Long(collect_longs(&values))
    } else if kind == 3 {
        NbtList::Float(collect_floats(values))
    } else if kind == 4 {
        NbtList::Double(collect_doubles(values))
    } else if kind == 5 {
        NbtList::String(collect_strings(values))
    } else if kind == 6 {
        NbtList::Compound(collect_compounds(values))
    } else {
        NbtList::Empty
    }
}

// ---------------------------------------------------------------------------
// Whole compounds and the command argument.
// ---------------------------------------------------------------------------

/// The end of `s[..e]` once trailing whitespace is dropped.
pub open spec fn trim_back(s: Seq<char>, e: int) -> int
    decreases e,
{
    if 0 < e <= s.len() && is_whitespace_char(s[e - 1]) {
        trim_back(s, e - 1)
    } else {
        e
    }
}

/// A text without its leading and trailing whitespace.
pub open spec fn trim(s: Seq<char>) -> Seq<char> {
    let a = skip_ws(s, 0);
    if a >= s.len() {
        Seq::empty()
    } else {
        s.subrange(a, trim_back(s, s.len() as int))
    }
}

/// The entries of a top-level compound's inside from `p` on, after those in `acc`.
///
/// Reading stops without error at the end of the text, or where an entry is
/// not followed by a comma.
pub open spec fn top_entries(s: Seq<char>, p: int, acc: Seq<(Seq<char>, TagModel)>) -> Option<
    Seq<(Seq<char>, TagModel)>,
>
    decreases s.len() - p,
{
    if p < 0 || p >= s.len() {
        Some(acc)
    } else {
        let p1 = skip_ws(s, p);
        if p1 >= s.len() {
            Some(acc)
        } else {
            match key_of(s, p1) {
                None => None,
                Some((k, p2)) => {
                    let p3 = skip_ws(s, p2);
                    if !at(s, p3, ':') {
                        None
                    } else {
                        let p4 = skip_ws(s, p3 + 1);
                        match value_of(s, p4) {
                            None => None,
                            Some((v, p5)) => {
                                let acc2 = acc.push((k, v));
                                let p6 = skip_ws(s, p5);
                                if at(s, p6, ',') && p6 >= p {
                                    top_entries(s, p6 + 1, acc2)
                                } else {
                                    Some(acc2)
                                }
                            },
                        }
                    }
                },
            }
        }
    }
}

/// The entries of an SNBT compound text such as `{Health:20.0f,NoAI:1b}`.
///
/// The text, once trimmed, must start with `{` and end with `}`.
pub open spec fn snbt_compound_of(text: Seq<char>) -> Option<Seq<(Seq<char>, TagModel)>> {
    let t = trim(text);
    if !(t.len() > 0 && t[0] == '{' && t.last() == '}') || t.len() < 2 {
        None
    } else {
        let inner = t.subrange(1, t.len() - 1);
        if trim(inner).len() == 0 {
            Some(Seq::empty())
        } else {
            top_entries(inner, 0, Seq::empty())
        }
    }
}

/// What a reader of a whole compound gives.
pub open spec fn compound_result(r: Option<NbtCompound>) -> Option<Seq<(Seq<char>, TagModel)>> {
    match r {
        Some(c) => Some(entries_model(c.entries@)),
        None => None,
    }
}

proof fn lemma_trim_back(s: Seq<char>, e: int, a: int)
    requires
        0 <= a < e <= s.len(),
        !is_whitespace_char(s[a]),
    ensures
        a < trim_back(s, e) <= e,
    decreases e,
{
    if is_whitespace_char(s[e - 1]) {
        lemma_trim_back(s, e - 1, a);
    }
}

/// The bounds of a text without its leading and trailing whitespace.
fn trim_bounds(s: &[char]) -> (r: (usize, usize))
    ensures
        r.0 <= r.1 <= s@.len(),
        s@.subrange(r.0 as int, r.1 as int) == trim(s@),
{
    let mut a: usize = 0;
    proof {
        lemma_skip_ws(s@, 0);
    }
    while a < s.len() && is_whitespace(s[a])
        invariant
            a <= s@.len(),
            skip_ws(s@, a as int) == skip_ws(s@, 0),
        decreases s@.len() - a,
    {
        a += 1;
    }
    if a >= s.len() {
        return (a, a);
    }
    let mut b: usize = s.len();
    proof {
        lemma_trim_back(s@, s@.len() as int, a as int);
    }
    while b > 0 && is_whitespace(s[b - 1])
        invariant
            a < b <= s@.len(),
            !is_whitespace_char(s@[a as int]),
            trim_back(s@, b as int) == trim_back(s@, s@.len() as int),
        decreases b,
    {
        b -= 1;
    }
    (a, b)
}

/// Reads the entries of a top-level compound's inside (see [`top_entries`]).
fn read_top_entries(parser: &mut SnbtParser) -> (r: Option<NbtCompound>)
    requires
        old(parser).pos == 0,
    ensures
        top_entries(old(parser).input@, 0, Seq::empty()) == compound_result(r),
{
    let mut compound = NbtCompound::new();
    let ghost s = parser.input@;
    assert(entries_model(compound.entries@) == Seq::<(Seq<char>, TagModel)>::empty());
    while !parser.is_empty()
        invariant
            parser.input@ == s,
            s == old(parser).input@,
            parser.pos <= s.len(),
            top_entries(s, 0, Seq::empty()) == top_entries(
                s,
                parser.pos as int,
                entries_model(compound.entries@),
            ),
        decreases s.len() - parser.pos,
    {
        parser.skip_whitespace();
        if parser.is_empty() {
            return Some(compound);
        }
        let key = match parser.parse_key() {
            Some(k) => k,
            None => {
                return None;
            },
        };
        parser.skip_whitespace();
        if !parser.consume(':') {
            return None;
        }
        parser.skip_whitespace();
        let value = match parser.parse_value() {
            Some(v) => v,
            None => {
                return None;
            },
        };
        compound.insert(key, value);
        parser.skip_whitespace();
        if !parser.consume(',') {
            return Some(compound);
        }
    }
    Some(compound)
}

/// Reads an SNBT compound such as `{Health:20.0f,NoAI:1b}` from its chars.
pub fn parse_compound_chars(input: &[char]) -> (r: Option<NbtCompound>)
    ensures
        compound_result(r) == snbt_compound_of(input@),
{
    let (a, b) = trim_bounds(input);
    let t = &input[a..b];
    if !(b > a && t[0] == '{' && t[b - a - 1] == '}') || b - a < 2 {
        return None;
    }
    let inner = &t[1..b - a - 1];
    let (ia, ib) = trim_bounds(inner);
    if ia == ib {
        return Some(NbtCompound::new());
    }
    let mut parser = SnbtParser::new(inner);
    read_top_entries(&mut parser)
}

/// Reads an SNBT compound such as `{Health:20.0f,NoAI:1b}`.
pub fn parse_snbt_compound(input: &str) -> (r: Option<NbtCompound>)
    ensures
        compound_result(r) == snbt_compound_of(input@),
{
    let chars = chars_of(input);
    parse_compound_chars(chars.as_slice())
}

/// The position of the `}` that closes the brace open at the start, scanning
/// from `i` with `depth` braces open; braces inside quoted strings do not count
/// and a backslash in a string makes the next char literal.
pub open spec fn brace_scan(s: Seq<char>, i: int, depth: int, in_string: bool, escape: bool) -> Option<
    int,
>
    decreases s.len() - i,
{
    if i < 0 || i >= s.len() {
        None
    } else if escape {
        brace_scan(s, i + 1, depth, in_string, false)
    } else if s[i] == '\\' && in_string {
        brace_scan(s, i + 1, depth, in_string, true)
    } else if s[i] == '"' {
        brace_scan(s, i + 1, depth, !in_string, false)
    } else if s[i] == '{' && !in_string {
        brace_scan(s, i + 1, depth + 1, in_string, false)
    } else if s[i] == '}' && !in_string {
        if depth - 1 == 0 {
            Some(i)
        } else {
            brace_scan(s, i + 1, depth - 1, in_string, false)
        }
    } else {
        brace_scan(s, i + 1, depth, in_string, false)
    }
}

/// The position of the `}` that closes a text starting with `{`.
pub open spec fn compound_end(s: Seq<char>) -> Option<int> {
    if at(s, 0, '{') {
        brace_scan(s, 0, 0, false, false)
    } else {
        None
    }
}

proof fn lemma_brace_scan_bound(s: Seq<char>, i: int, depth: int, in_string: bool, escape: bool)
    ensures
        brace_scan(s, i, depth, in_string, escape) matches Some(e) ==> i <= e < s.len(),
    decreases s.len() - i,
{
    if 0 <= i < s.len() {
        lemma_brace_scan_bound(s, i + 1, depth, in_string, false);
        lemma_brace_scan_bound(s, i + 1, depth, in_string, true);
        lemma_brace_scan_bound(s, i + 1, depth, !in_string, false);
        lemma_brace_scan_bound(s, i + 1, depth + 1, in_string, false);
        lemma_brace_scan_bound(s, i + 1, depth - 1, in_string, false);
    }
}

/// Finds the compound at the start of `input`: the number of chars it spans
/// (through its closing brace) and the number of chars after it.
pub fn extract_compound_string(input: &[char]) -> (r: Option<(usize, usize)>)
    ensures
        match compound_end(input@) {
            Some(i) => 0 <= i < input@.len() && r == Some(
                ((i + 1) as usize, (input@.len() - i - 1) as usize),
            ),
            None => r is None,
        },
{
    proof {
        lemma_brace_scan_bound(input@, 0, 0, false, false);
    }
    if !(input.len() > 0 && input[0] == '{') {
        return None;
    }
    let mut depth: usize = 0;
    let mut in_string = false;
    let mut escape_next = false;
    let mut i: usize = 0;
    while i < input.len()
        invariant
            i <= input@.len(),
            at(input@, 0, '{'),
            i == 0 ==> depth == 0 && !in_string && !escape_next,
            i > 0 ==> depth >= 1,
            depth <= i,
            compound_end(input@) == brace_scan(input@, i as int, depth as int, in_string, escape_next),
        decreases input@.len() - i,
    {
        let c = input[i];
        if escape_next {
            escape_next = false;
        } else if c == '\\' && in_string {
            escape_next = true;
        } else if c == '"' {
            in_string = !in_string;
        } else if c == '{' && !in_string {
            depth += 1;
        } else if c == '}' && !in_string {
            if depth == 1 {
                return Some((i + 1, input.len() - i - 1));
            }
            depth -= 1;
        }
        i += 1;
    }
    None
}

/// The text of arguments joined by single spaces.
pub open spec fn joined(args: Seq<Seq<char>>) -> Seq<char>
    decreases args.len(),
{
    if args.len() == 0 {
        Seq::empty()
    } else if args.len() == 1 {
        args[0]
    } else {
        joined(args.drop_last()).push(' ') + args.last()
    }
}

proof fn lemma_joined_prefix_len(m: Seq<Seq<char>>, k: int)
    requires
        0 <= k <= m.len(),
    ensures
        joined(m.take(k)).len() <= joined(m).len(),
    decreases m.len(),
{
    if k == m.len() {
        assert(m.take(k) == m);
    } else {
        assert(m.drop_last().take(k) == m.take(k));
        lemma_joined_prefix_len(m.drop_last(), k);
    }
}

/// The texts of a slice of argument strings.
pub open spec fn args_model(args: Seq<&str>) -> Seq<Seq<char>> {
    args.map_values(|a: &str| a@)
}

/// How many arguments a reader that took `target` chars of the joined text
/// used: the first `k` arguments, for the least `k >= 1` whose joined length
/// reaches `target` (counting from argument `i` with `counted` chars so far),
/// or all of them.
pub open spec fn args_used(args: Seq<Seq<char>>, i: int, counted: int, target: int) -> int
    decreases args.len() - i,
{
    if i < 0 || i >= args.len() {
        i
    } else {
        let c = counted + args[i].len() + if i > 0 {
            1int
        } else {
            0int
        };
        if c >= target {
            i + 1
        } else {
            args_used(args, i + 1, c, target)
        }
    }
}

/// Joins arguments with single spaces.
fn join_args(args: &[&str]) -> (v: Vec<char>)
    ensures
        v@ == joined(args_model(args@)),
{
    let ghost m = args_model(args@);
    let mut v: Vec<char> = Vec::new();
    let mut i: usize = 0;
    while i < args.len()
        invariant
            i <= args@.len(),
            m == args_model(args@),
            v@ == joined(m.take(i as int)),
        decreases args@.len() - i,
    {
        let a = chars_of(args[i]);
        assert(m.take(i + 1).drop_last() == m.take(i as int));
        assert(m.take(i + 1).last() == a@);
        if i > 0 {
            v.push(' ');
        }
        let mut j: usize = 0;
        let ghost before = v@;
        while j < a.len()
            invariant
                j <= a@.len(),
                v@ == before + a@.take(j as int),
            decreases a@.len() - j,
        {
            v.push(a[j]);
            assert(a@.take(j + 1) == a@.take(j as int).push(a@[j as int]));
            j += 1;
        }
        assert(a@.take(a@.len() as int) == a@);
        proof {
            if i == 0 {
                assert(before == Seq::<char>::empty());
                assert(v@ == a@);
            }
        }
        i += 1;
    }
    assert(m.take(args@.len() as int) == m);
    v
}

/// An NBT compound command argument in SNBT form, such as `{Health:20.0f,NoAI:1b}`.
pub struct NbtArgument;

impl NbtArgument {
    /// Reads the compound that the arguments start with.
    ///
    /// The arguments are joined by single spaces (a compound may hold spaces),
    /// the compound is read up to the brace that closes its first one, and the
    /// arguments that the compound spans are used up; the rest are handed back.
    pub fn parse<'a>(&self, arg: &'a [&'a str]) -> (r: Option<(&'a [&'a str], NbtCompound)>)
        ensures
            ({
                let full = joined(args_model(arg@));
                match compound_end(full) {
                    None => r is None,
                    Some(i) => match snbt_compound_of(full.take(i + 1)) {
                        None => r is None,
                        Some(es) => r matches Some((rest, c)) && entries_model(c.entries@) == es
                            && rest@ == arg@.skip(
                            args_used(args_model(arg@), 0, 0, i + 1),
                        ),
                    },
                }
            }),
    {
        let full = join_args(arg);
        if !(full.len() > 0 && full[0] == '{') {
            return None;
        }
        let (nbt_len, _remaining) = match extract_compound_string(full.as_slice()) {
            Some(x) => x,
            None => {
                return None;
            },
        };
        let nbt = &full.as_slice()[0..nbt_len];
        assert(nbt@ == full@.take(nbt_len as int));
        let compound = match parse_compound_chars(nbt) {
            Some(c) => c,
            None => {
                return None;
            },
        };
        let ghost m = args_model(arg@);
        let ghost target = nbt_len as int;
        let full_len = full.len();
        assert(joined(m).len() == full_len);
        let mut chars_counted: usize = 0;
        let mut args_consumed: usize = 0;
        let mut done = false;
        let mut i: usize = 0;
        assert(m.take(0) == Seq::<Seq<char>>::empty());
        while i < arg.len() && !done
            invariant
                i <= arg@.len(),
                m == args_model(arg@),
                joined(m).len() == full_len,
                target == nbt_len,
                args_consumed <= arg@.len(),
                done ==> args_consumed == args_used(m, 0, 0, target),
                !done ==> args_used(m, 0, 0, target) == args_used(m, i as int, chars_counted as int, target),
                !done ==> args_consumed == i,
                !done ==> chars_counted == joined(m.take(i as int)).len(),
            decreases arg@.len() - i,
        {
            let a = chars_of(arg[i]);
            assert(a@ == m[i as int]);
            proof {
                lemma_joined_prefix_len(m, i + 1);
                assert(m.take(i + 1).drop_last() == m.take(i as int));
                assert(m.take(i + 1).last() == m[i as int]);
                if i > 0 {
                    assert(m.take(i + 1).len() >= 2);
                    assert(joined(m.take(i + 1)) == joined(m.take(i as int)).push(' ') + m[i as int]);
                } else {
                    assert(joined(m.take(i + 1)) == m[0]);
                }
            }
            chars_counted += a.len();
            if i > 0 {
                chars_counted += 1;
            }
            args_consumed = i + 1;
            if chars_counted >= nbt_len {
                done = true;
            }
            i += 1;
        }
        let rest = &arg[args_consumed..arg.len()];
        Some((rest, compound))
    }
}

} // verus!
