//! The deserializer: a byte-level reader that turns markup text into the
//! mapped structure of [`crate::model`].
//!
//! The accepted shape is exactly the one the schema requires: an optional
//! leading processing directive such as an XML declaration, then a
//! `gml:MultiSurface` root with an optional `gml:id` attribute and any
//! number of `gml:surfaceMember` children, each with an optional
//! `xlink:href` attribute and an optional inline `gml:Polygon` (one
//! `gml:exterior` ring followed by any number of `gml:interior` rings, each
//! a `gml:LinearRing` around a `gml:posList`).  Attribute values may stand
//! in double or single quotes; unknown attributes are ignored.
//!
//! The reader is deliberately literal: comments are not recognized, and
//! attribute values and the text of a `gml:posList` are kept verbatim —
//! character and entity references such as `&amp;` are not decoded.
//!
//! Every reader function returns exactly what its spec-level counterpart
//! denotes, so the whole deserialization is a function of the input bytes.

use vstd::prelude::*;

use crate::errors::DeserializeError;
use crate::model::GmlLinearRing;
use crate::model::GmlMultiSurface;
use crate::model::GmlPolygon;
use crate::model::GmlSurfaceMember;
use crate::model::MemberShape;
use crate::model::MultiSurfaceShape;
use crate::model::PolygonShape;
use crate::model::RingShape;
use vstd::slice::slice_to_vec;
use vstd::string::StringSliceAdditionalSpecFns;

verus! {

/// One attribute of an element: its name and its quoted value.
pub struct Attr {
    pub name: Vec<u8>,
    pub value: Vec<u8>,
}

/// View of an attribute.
pub ghost struct AttrShape {
    pub name: Seq<u8>,
    pub value: Seq<u8>,
}

impl View for Attr {
    type V = AttrShape;

    open spec fn view(&self) -> AttrShape {
        AttrShape { name: self.name@, value: self.value@ }
    }
}

/// Markup whitespace: space, tab, line feed, carriage return.
pub open spec fn is_ws(b: u8) -> bool {
    b == 32 || b == 9 || b == 10 || b == 13
}

/// A byte that may stand in an element or attribute name: an ASCII letter
/// or digit, or one of `:` `_` `-` `.`.
pub open spec fn is_name_byte(b: u8) -> bool {
    (48 <= b && b <= 57) || (65 <= b && b <= 90) || (97 <= b && b <= 122) || b == 58 || b == 95
        || b == 45 || b == 46
}

/// The first position at or after `i` that holds no whitespace.
pub open spec fn spec_skip_ws(s: Seq<u8>, i: int) -> int
    decreases s.len() - i,
{
    if i < 0 || i >= s.len() {
        i
    } else if is_ws(s[i]) {
        spec_skip_ws(s, i + 1)
    } else {
        i
    }
}

proof fn lemma_skip_ws(s: Seq<u8>, i: int)
    requires
        0 <= i <= s.len(),
    ensures
        i <= spec_skip_ws(s, i) <= s.len(),
    decreases s.len() - i,
{
    if i < s.len() && is_ws(s[i]) {
        lemma_skip_ws(s, i + 1);
    }
}

/// The first position at or after `i` whose byte is no name byte.
pub open spec fn spec_name_end(s: Seq<u8>, i: int) -> int
    decreases s.len() - i,
{
    if i < 0 || i >= s.len() {
        i
    } else if is_name_byte(s[i]) {
        spec_name_end(s, i + 1)
    } else {
        i
    }
}

proof fn lemma_name_end(s: Seq<u8>, i: int)
    requires
        0 <= i <= s.len(),
    ensures
        i <= spec_name_end(s, i) <= s.len(),
    decreases s.len() - i,
{
    if i < s.len() && is_name_byte(s[i]) {
        lemma_name_end(s, i + 1);
    }
}

/// The first position at or after `i` that holds `b`, or the length when
/// none does.
pub open spec fn spec_find(s: Seq<u8>, i: int, b: u8) -> int
    decreases s.len() - i,
{
    if i < 0 || i >= s.len() {
        s.len() as int
    } else if s[i] == b {
        i
    } else {
        spec_find(s, i + 1, b)
    }
}

proof fn lemma_find(s: Seq<u8>, i: int, b: u8)
    requires
        0 <= i <= s.len(),
    ensures
        i <= spec_find(s, i, b) <= s.len(),
    decreases s.len() - i,
{
    if i < s.len() && s[i] != b {
        lemma_find(s, i + 1, b);
    }
}

pub(crate) fn skip_ws(s: &[u8], i: usize) -> (j: usize)
    requires
        i <= s@.len(),
    ensures
        j as int == spec_skip_ws(s@, i as int),
        i <= j <= s@.len(),
    decreases s@.len() - i,
{
    proof {
        lemma_skip_ws(s@, i as int);
    }
    if i < s.len() {
        let b = s[i];
        if b == 32 || b == 9 || b == 10 || b == 13 {
            return skip_ws(s, i + 1);
        }
    }
    i
}

fn name_end(s: &[u8], i: usize) -> (j: usize)
    requires
        i <= s@.len(),
    ensures
        j as int == spec_name_end(s@, i as int),
        i <= j <= s@.len(),
    decreases s@.len() - i,
{
    proof {
        lemma_name_end(s@, i as int);
    }
    if i < s.len() {
        let b = s[i];
        if (48 <= b && b <= 57) || (65 <= b && b <= 90) || (97 <= b && b <= 122) || b == 58 || b
            == 95 || b == 45 || b == 46 {
            return name_end(s, i + 1);
        }
    }
    i
}

fn find_byte(s: &[u8], i: usize, b: u8) -> (j: usize)
    requires
        i <= s@.len(),
    ensures
        j as int == spec_find(s@, i as int, b),
        i <= j <= s@.len(),
    decreases s@.len() - i,
{
    proof {
        lemma_find(s@, i as int, b);
    }
    if i < s.len() {
        if s[i] == b {
            return i;
        }
        return find_byte(s, i + 1, b);
    }
    s.len()
}

/// Whether `s[a..b]` spells exactly `t`.
fn range_matches(s: &[u8], a: usize, b: usize, t: &[u8]) -> (r: bool)
    requires
        a <= b <= s@.len(),
    ensures
        r == (s@.subrange(a as int, b as int) == t@),
{
    if b - a != t.len() {
        proof {
            assert(s@.subrange(a as int, b as int).len() != t@.len());
        }
        return false;
    }
    let mut k: usize = 0;
    while k < t.len()
        invariant
            a <= b <= s@.len(),
            b - a == t@.len(),
            k <= t@.len(),
            forall|m: int| 0 <= m < k ==> s@.subrange(a as int, b as int)[m] == t@[m],
        decreases t@.len() - k,
    {
        if s[a + k] != t[k] {
            proof {
                assert(s@.subrange(a as int, b as int)[k as int] != t@[k as int]);
            }
            return false;
        }
        k += 1;
    }
    proof {
        assert(s@.subrange(a as int, b as int) =~= t@);
    }
    true
}

/// The value of the first attribute named `name`, or empty when none is.
pub open spec fn spec_attr_value(attrs: Seq<AttrShape>, name: Seq<u8>) -> Seq<u8>
    decreases attrs.len(),
{
    if attrs.len() == 0 {
        Seq::empty()
    } else if attrs[0].name == name {
        attrs[0].value
    } else {
        spec_attr_value(attrs.drop_first(), name)
    }
}

fn attr_value_from(attrs: &Vec<Attr>, k: usize, name: &[u8]) -> (r: Vec<u8>)
    requires
        k <= attrs@.len(),
    ensures
        r@ == spec_attr_value(attrs@.map_values(|a: Attr| a@).skip(k as int), name@),
    decreases attrs@.len() - k,
{
    if k == attrs.len() {
        proof {
            assert(attrs@.map_values(|a: Attr| a@).skip(k as int) =~= Seq::<AttrShape>::empty());
        }
        Vec::new()
    } else {
        let a = &attrs[k];
        proof {
            assert(attrs@.map_values(|a: Attr| a@).skip(k as int).drop_first() =~= attrs@.map_values(
                |a: Attr| a@,
            ).skip(k as int + 1));
            assert(attrs@.map_values(|a: Attr| a@).skip(k as int)[0] == attrs@[k as int]@);
        }
        if range_matches(a.name.as_slice(), 0, a.name.len(), name) {
            proof {
                assert(a.name@.subrange(0, a.name@.len() as int) =~= a.name@);
            }
            slice_to_vec(a.value.as_slice())
        } else {
            proof {
                assert(a.name@.subrange(0, a.name@.len() as int) =~= a.name@);
            }
            attr_value_from(attrs, k + 1, name)
        }
    }
}

/// The attribute list of an open tag, from position `i` (just after the
/// element name) to the closing `>` or `/>`.
pub open spec fn spec_attrs(s: Seq<u8>, i: int) -> Result<
    (Seq<AttrShape>, bool, int),
    DeserializeError,
>
    decreases s.len() - i,
{
    let j = spec_skip_ws(s, i);
    if j >= s.len() {
        Err(DeserializeError::UnexpectedEnd)
    } else if s[j] == 62 {  // '>'
        Ok((Seq::empty(), false, j + 1))
    } else if s[j] == 47 {  // '/'
        if j + 1 < s.len() && s[j + 1] == 62 {
            Ok((Seq::empty(), true, j + 2))
        } else {
            Err(DeserializeError::MalformedTag)
        }
    } else if is_name_byte(s[j]) {
        let e = spec_name_end(s, j);
        if e >= s.len() {
            Err(DeserializeError::UnexpectedEnd)
        } else if s[e] != 61 {  // '='
            Err(DeserializeError::MalformedTag)
        } else if e + 1 >= s.len() {
            Err(DeserializeError::UnexpectedEnd)
        } else if s[e + 1] != 34 && s[e + 1] != 39 {  // a double or single quote
            Err(DeserializeError::MalformedTag)
        } else {
            let q = spec_find(s, e + 2, s[e + 1]);
            if q >= s.len() {
                Err(DeserializeError::UnexpectedEnd)
            } else if q + 1 <= i {
                // unreachable: quotes lie beyond the name; keeps the
                // recursion visibly decreasing
                Err(DeserializeError::MalformedTag)
            } else {
                match spec_attrs(s, q + 1) {
                    Ok((rest, sc, k)) => Ok(
                        (
                            seq![AttrShape { name: s.subrange(j, e), value: s.subrange(e + 2, q) }]
                                + rest,
                            sc,
                            k,
                        ),
                    ),
                    Err(er) => Err(er),
                }
            }
        }
    } else {
        Err(DeserializeError::MalformedTag)
    }
}

fn parse_attrs(s: &[u8], i: usize) -> (r: Result<(Vec<Attr>, bool, usize), DeserializeError>)
    requires
        i <= s@.len(),
    ensures
        ({
            let sp = spec_attrs(s@, i as int);
            match r {
                Ok((v, sc, k)) => sp is Ok && v@.map_values(|a: Attr| a@) == sp->Ok_0.0 && sc
                    == sp->Ok_0.1 && k as int == sp->Ok_0.2 && k <= s@.len(),
                Err(e) => sp is Err && e == sp->Err_0,
            }
        }),
    decreases s@.len() - i,
{
    let j = skip_ws(s, i);
    if j >= s.len() {
        return Err(DeserializeError::UnexpectedEnd);
    }
    let b = s[j];
    if b == 62 {
        proof {
            assert(Seq::<Attr>::empty().map_values(|a: Attr| a@) =~= Seq::<AttrShape>::empty());
        }
        return Ok((Vec::new(), false, j + 1));
    }
    if b == 47 {
        if j + 1 < s.len() && s[j + 1] == 62 {
            proof {
                assert(Seq::<Attr>::empty().map_values(|a: Attr| a@) =~= Seq::<
                    AttrShape,
                >::empty());
            }
            return Ok((Vec::new(), true, j + 2));
        }
        return Err(DeserializeError::MalformedTag);
    }
    if !((48 <= b && b <= 57) || (65 <= b && b <= 90) || (97 <= b && b <= 122) || b == 58 || b == 95
        || b == 45 || b == 46) {
        return Err(DeserializeError::MalformedTag);
    }
    let e = name_end(s, j);
    if e >= s.len() {
        return Err(DeserializeError::UnexpectedEnd);
    }
    if s[e] != 61 {
        return Err(DeserializeError::MalformedTag);
    }
    if e + 1 >= s.len() {
        return Err(DeserializeError::UnexpectedEnd);
    }
    let quote = s[e + 1];
    if quote != 34 && quote != 39 {
        return Err(DeserializeError::MalformedTag);
    }
    let q = find_byte(s, e + 2, quote);
    if q >= s.len() {
        return Err(DeserializeError::UnexpectedEnd);
    }
    if q + 1 <= i {
        return Err(DeserializeError::MalformedTag);
    }
    match parse_attrs(s, q + 1) {
        Ok((rest, sc, k)) => {
            let name = slice_to_vec(vstd::slice::slice_subrange(s, j, e));
            let value = slice_to_vec(vstd::slice::slice_subrange(s, e + 2, q));
            let mut v = rest;
            v.insert(0, Attr { name, value });
            proof {
                assert(v@.map_values(|a: Attr| a@) =~= seq![
                    AttrShape {
                        name: s@.subrange(j as int, e as int),
                        value: s@.subrange(e as int + 2, q as int),
                    },
                ] + spec_attrs(s@, q as int + 1)->Ok_0.0);
            }
            Ok((v, sc, k))
        },
        Err(er) => Err(er),
    }
}

/// An open tag `<name ...>` at position `i`: its attributes, whether it is
/// self-closing, and the position after it.
pub open spec fn spec_tag_open(s: Seq<u8>, i: int, name: Seq<u8>) -> Result<
    (Seq<AttrShape>, bool, int),
    DeserializeError,
> {
    if i < 0 || i >= s.len() {
        Err(DeserializeError::UnexpectedEnd)
    } else if s[i] != 60 {  // '<'
        Err(DeserializeError::MalformedTag)
    } else {
        let e = spec_name_end(s, i + 1);
        if s.subrange(i + 1, e) != name {
            Err(DeserializeError::UnexpectedElement)
        } else {
            spec_attrs(s, e)
        }
    }
}

fn parse_tag_open(s: &[u8], i: usize, name: &[u8]) -> (r: Result<
    (Vec<Attr>, bool, usize),
    DeserializeError,
>)
    requires
        i <= s@.len(),
    ensures
        ({
            let sp = spec_tag_open(s@, i as int, name@);
            match r {
                Ok((v, sc, k)) => sp is Ok && v@.map_values(|a: Attr| a@) == sp->Ok_0.0 && sc
                    == sp->Ok_0.1 && k as int == sp->Ok_0.2 && k <= s@.len(),
                Err(e) => sp is Err && e == sp->Err_0,
            }
        }),
{
    if i >= s.len() {
        return Err(DeserializeError::UnexpectedEnd);
    }
    if s[i] != 60 {
        return Err(DeserializeError::MalformedTag);
    }
    let e = name_end(s, i + 1);
    if !range_matches(s, i + 1, e, name) {
        return Err(DeserializeError::UnexpectedElement);
    }
    parse_attrs(s, e)
}

/// A close tag `</name>` at position `i`, whitespace allowed before the
/// final `>`: the position after it.
pub open spec fn spec_tag_close(s: Seq<u8>, i: int, name: Seq<u8>) -> Result<
    int,
    DeserializeError,
> {
    if i < 0 || i + 1 >= s.len() {
        Err(DeserializeError::UnexpectedEnd)
    } else if s[i] != 60 || s[i + 1] != 47 {  // '<' '/'
        Err(DeserializeError::MalformedTag)
    } else {
        let e = spec_name_end(s, i + 2);
        if s.subrange(i + 2, e) != name {
            Err(DeserializeError::UnexpectedElement)
        } else {
            let j = spec_skip_ws(s, e);
            if j >= s.len() {
                Err(DeserializeError::UnexpectedEnd)
            } else if s[j] != 62 {  // '>'
                Err(DeserializeError::MalformedTag)
            } else {
                Ok(j + 1)
            }
        }
    }
}

fn parse_tag_close(s: &[u8], i: usize, name: &[u8]) -> (r: Result<usize, DeserializeError>)
    requires
        i <= s@.len(),
    ensures
        ({
            let sp = spec_tag_close(s@, i as int, name@);
            match r {
                Ok(k) => sp is Ok && k as int == sp->Ok_0 && k <= s@.len(),
                Err(e) => sp is Err && e == sp->Err_0,
            }
        }),
{
    if i >= s.len() || i + 1 >= s.len() {
        return Err(DeserializeError::UnexpectedEnd);
    }
    if s[i] != 60 || s[i + 1] != 47 {
        return Err(DeserializeError::MalformedTag);
    }
    let e = name_end(s, i + 2);
    if !range_matches(s, i + 2, e, name) {
        return Err(DeserializeError::UnexpectedElement);
    }
    let j = skip_ws(s, e);
    if j >= s.len() {
        return Err(DeserializeError::UnexpectedEnd);
    }
    if s[j] != 62 {
        return Err(DeserializeError::MalformedTag);
    }
    Ok(j + 1)
}

/// The name of the root element.
pub open spec fn tag_multi_surface() -> Seq<u8> {
    "gml:MultiSurface".spec_bytes()
}

/// The name of a surface-member element.
pub open spec fn tag_surface_member() -> Seq<u8> {
    "gml:surfaceMember".spec_bytes()
}

/// The name of a polygon element.
pub open spec fn tag_polygon() -> Seq<u8> {
    "gml:Polygon".spec_bytes()
}

/// The name of the exterior-ring property element.
pub open spec fn tag_exterior() -> Seq<u8> {
    "gml:exterior".spec_bytes()
}

/// The name of an interior-ring property element.
pub open spec fn tag_interior() -> Seq<u8> {
    "gml:interior".spec_bytes()
}

/// The name of a linear-ring element.
pub open spec fn tag_linear_ring() -> Seq<u8> {
    "gml:LinearRing".spec_bytes()
}

/// The name of a coordinate-list element.
pub open spec fn tag_pos_list() -> Seq<u8> {
    "gml:posList".spec_bytes()
}

/// The name of the identifier attribute.
pub open spec fn attr_id() -> Seq<u8> {
    "gml:id".spec_bytes()
}

/// The name of the by-reference attribute.
pub open spec fn attr_href() -> Seq<u8> {
    "xlink:href".spec_bytes()
}

/// A whole `gml:posList` element at `i`: its verbatim text and the position
/// after its close tag.  A self-closing list has empty text.
pub open spec fn spec_pos_list(s: Seq<u8>, i: int) -> Result<(Seq<u8>, int), DeserializeError> {
    match spec_tag_open(s, i, tag_pos_list()) {
        Err(e) => Err(e),
        Ok((_attrs, sc, j)) => if sc {
            Ok((Seq::empty(), j))
        } else {
            let t = spec_find(s, j, 60);  // '<'
            match spec_tag_close(s, t, tag_pos_list()) {
                Err(e) => Err(e),
                Ok(k) => Ok((s.subrange(j, t), k)),
            }
        },
    }
}

fn parse_pos_list(s: &[u8], i: usize) -> (r: Result<(Vec<u8>, usize), DeserializeError>)
    requires
        i <= s@.len(),
    ensures
        ({
            let sp = spec_pos_list(s@, i as int);
            match r {
                Ok((v, k)) => sp is Ok && v@ == sp->Ok_0.0 && k as int == sp->Ok_0.1 && k
                    <= s@.len(),
                Err(e) => sp is Err && e == sp->Err_0,
            }
        }),
{
    let (_, sc, j) = match parse_tag_open(s, i, "gml:posList".as_bytes()) {
        Ok(t) => t,
        Err(e) => {
            return Err(e);
        },
    };
    if sc {
        return Ok((Vec::new(), j));
    }
    let t = find_byte(s, j, 60);
    match parse_tag_close(s, t, "gml:posList".as_bytes()) {
        Err(e) => Err(e),
        Ok(k) => Ok((slice_to_vec(vstd::slice::slice_subrange(s, j, t)), k)),
    }
}

/// A whole `gml:LinearRing` element at `i`: its coordinate text and the
/// position after its close tag.  A self-closing ring carries no
/// coordinate list and is refused.
pub open spec fn spec_ring(s: Seq<u8>, i: int) -> Result<(RingShape, int), DeserializeError> {
    match spec_tag_open(s, i, tag_linear_ring()) {
        Err(e) => Err(e),
        Ok((_attrs, sc, j)) => if sc {
            Err(DeserializeError::MissingContent)
        } else {
            let j1 = spec_skip_ws(s, j);
            match spec_pos_list(s, j1) {
                Err(e) => Err(e),
                Ok((text, k)) => {
                    let k1 = spec_skip_ws(s, k);
                    match spec_tag_close(s, k1, tag_linear_ring()) {
                        Err(e) => Err(e),
                        Ok(m) => Ok((RingShape { pos_list: text }, m)),
                    }
                },
            }
        },
    }
}

fn parse_ring(s: &[u8], i: usize) -> (r: Result<(GmlLinearRing, usize), DeserializeError>)
    requires
        i <= s@.len(),
    ensures
        ({
            let sp = spec_ring(s@, i as int);
            match r {
                Ok((v, k)) => sp is Ok && v@ == sp->Ok_0.0 && k as int == sp->Ok_0.1 && k
                    <= s@.len(),
                Err(e) => sp is Err && e == sp->Err_0,
            }
        }),
{
    let (_, sc, j) = match parse_tag_open(s, i, "gml:LinearRing".as_bytes()) {
        Ok(t) => t,
        Err(e) => {
            return Err(e);
        },
    };
    if sc {
        return Err(DeserializeError::MissingContent);
    }
    let j1 = skip_ws(s, j);
    let (text, k) = match parse_pos_list(s, j1) {
        Ok(t) => t,
        Err(e) => {
            return Err(e);
        },
    };
    let k1 = skip_ws(s, k);
    match parse_tag_close(s, k1, "gml:LinearRing".as_bytes()) {
        Err(e) => Err(e),
        Ok(m) => Ok((GmlLinearRing { pos_list: text }, m)),
    }
}

/// A ring property element (`gml:exterior` or `gml:interior`) at `i`: the
/// ring it wraps and the position after its close tag.
pub open spec fn spec_ring_property(s: Seq<u8>, i: int, name: Seq<u8>) -> Result<
    (RingShape, int),
    DeserializeError,
> {
    match spec_tag_open(s, i, name) {
        Err(e) => Err(e),
        Ok((_attrs, sc, j)) => if sc {
            Err(DeserializeError::MissingContent)
        } else {
            let j1 = spec_skip_ws(s, j);
            match spec_ring(s, j1) {
                Err(e) => Err(e),
                Ok((ring, k)) => {
                    let k1 = spec_skip_ws(s, k);
                    match spec_tag_close(s, k1, name) {
                        Err(e) => Err(e),
                        Ok(m) => Ok((ring, m)),
                    }
                },
            }
        },
    }
}

fn parse_ring_property(s: &[u8], i: usize, name: &[u8]) -> (r: Result<
    (GmlLinearRing, usize),
    DeserializeError,
>)
    requires
        i <= s@.len(),
    ensures
        ({
            let sp = spec_ring_property(s@, i as int, name@);
            match r {
                Ok((v, k)) => sp is Ok && v@ == sp->Ok_0.0 && k as int == sp->Ok_0.1 && k
                    <= s@.len(),
                Err(e) => sp is Err && e == sp->Err_0,
            }
        }),
{
    let (_, sc, j) = match parse_tag_open(s, i, name) {
        Ok(t) => t,
        Err(e) => {
            return Err(e);
        },
    };
    if sc {
        return Err(DeserializeError::MissingContent);
    }
    let j1 = skip_ws(s, j);
    let (ring, k) = match parse_ring(s, j1) {
        Ok(t) => t,
        Err(e) => {
            return Err(e);
        },
    };
    let k1 = skip_ws(s, k);
    match parse_tag_close(s, k1, name) {
        Err(e) => Err(e),
        Ok(m) => Ok((ring, m)),
    }
}

/// The interior rings of a polygon from `i` up to and including the
/// polygon's close tag.
pub open spec fn spec_interiors(s: Seq<u8>, i: int) -> Result<
    (Seq<RingShape>, int),
    DeserializeError,
>
    decreases s.len() - i,
{
    let j = spec_skip_ws(s, i);
    match spec_tag_close(s, j, tag_polygon()) {
        Ok(k) => Ok((Seq::empty(), k)),
        Err(_) => match spec_ring_property(s, j, tag_interior()) {
            Err(e) => Err(e),
            Ok((ring, k)) => if k <= i || s.len() < k {
                // unreachable: a ring property spans at least one byte and
                // ends inside the input; keeps the recursion visibly
                // decreasing
                Err(DeserializeError::MalformedTag)
            } else {
                match spec_interiors(s, k) {
                    Err(e) => Err(e),
                    Ok((rest, m)) => Ok((seq![ring] + rest, m)),
                }
            },
        },
    }
}

fn parse_interiors(s: &[u8], i: usize) -> (r: Result<
    (Vec<GmlLinearRing>, usize),
    DeserializeError,
>)
    requires
        i <= s@.len(),
    ensures
        ({
            let sp = spec_interiors(s@, i as int);
            match r {
                Ok((v, k)) => sp is Ok && v@.map_values(|x: GmlLinearRing| x@) == sp->Ok_0.0 && k
                    as int == sp->Ok_0.1 && k <= s@.len(),
                Err(e) => sp is Err && e == sp->Err_0,
            }
        }),
    decreases s@.len() - i,
{
    let j = skip_ws(s, i);
    match parse_tag_close(s, j, "gml:Polygon".as_bytes()) {
        Ok(k) => {
            proof {
                assert(Seq::<GmlLinearRing>::empty().map_values(|x: GmlLinearRing| x@) =~= Seq::<
                    RingShape,
                >::empty());
            }
            Ok((Vec::new(), k))
        },
        Err(_) => {
            let (ring, k) = match parse_ring_property(s, j, "gml:interior".as_bytes()) {
                Ok(t) => t,
                Err(e) => {
                    return Err(e);
                },
            };
            if k <= i {
                return Err(DeserializeError::MalformedTag);
            }
            let (rest, m) = match parse_interiors(s, k) {
                Ok(t) => t,
                Err(e) => {
                    return Err(e);
                },
            };
            let mut v = rest;
            v.insert(0, ring);
            proof {
                assert(v@.map_values(|x: GmlLinearRing| x@) =~= seq![
                    spec_ring_property(s@, j as int, tag_interior())->Ok_0.0,
                ] + spec_interiors(s@, k as int)->Ok_0.0);
            }
            Ok((v, m))
        },
    }
}

/// A whole `gml:Polygon` element at `i`: its exterior ring, its interior
/// rings in source order, and the position after its close tag.
pub open spec fn spec_polygon(s: Seq<u8>, i: int) -> Result<(PolygonShape, int), DeserializeError> {
    match spec_tag_open(s, i, tag_polygon()) {
        Err(e) => Err(e),
        Ok((_attrs, sc, j)) => if sc {
            Err(DeserializeError::MissingContent)
        } else {
            let j1 = spec_skip_ws(s, j);
            match spec_ring_property(s, j1, tag_exterior()) {
                Err(e) => Err(e),
                Ok((exterior, k)) => match spec_interiors(s, k) {
                    Err(e) => Err(e),
                    Ok((interiors, m)) => Ok((PolygonShape { exterior, interiors }, m)),
                },
            }
        },
    }
}

fn parse_polygon(s: &[u8], i: usize) -> (r: Result<(GmlPolygon, usize), DeserializeError>)
    requires
        i <= s@.len(),
    ensures
        ({
            let sp = spec_polygon(s@, i as int);
            match r {
                Ok((v, k)) => sp is Ok && v@ == sp->Ok_0.0 && k as int == sp->Ok_0.1 && k
                    <= s@.len(),
                Err(e) => sp is Err && e == sp->Err_0,
            }
        }),
{
    let (_, sc, j) = match parse_tag_open(s, i, "gml:Polygon".as_bytes()) {
        Ok(t) => t,
        Err(e) => {
            return Err(e);
        },
    };
    if sc {
        return Err(DeserializeError::MissingContent);
    }
    let j1 = skip_ws(s, j);
    let (exterior, k) = match parse_ring_property(s, j1, "gml:exterior".as_bytes()) {
        Ok(t) => t,
        Err(e) => {
            return Err(e);
        },
    };
    match parse_interiors(s, k) {
        Err(e) => Err(e),
        Ok((interiors, m)) => Ok((GmlPolygon { exterior, interiors }, m)),
    }
}

/// A whole `gml:surfaceMember` element at `i`: the member it denotes and
/// the position after it.  A self-closing member, or one with no child
/// element, carries no inline polygon.
pub open spec fn spec_member(s: Seq<u8>, i: int) -> Result<(MemberShape, int), DeserializeError> {
    match spec_tag_open(s, i, tag_surface_member()) {
        Err(e) => Err(e),
        Ok((attrs, sc, j)) => {
            let href = spec_attr_value(attrs, attr_href());
            if sc {
                Ok((MemberShape { href, polygon: None }, j))
            } else {
                let j1 = spec_skip_ws(s, j);
                match spec_tag_close(s, j1, tag_surface_member()) {
                    Ok(k) => Ok((MemberShape { href, polygon: None }, k)),
                    Err(_) => match spec_polygon(s, j1) {
                        Err(e) => Err(e),
                        Ok((poly, k)) => {
                            let k1 = spec_skip_ws(s, k);
                            match spec_tag_close(s, k1, tag_surface_member()) {
                                Err(e) => Err(e),
                                Ok(m) => Ok((MemberShape { href, polygon: Some(poly) }, m)),
                            }
                        },
                    },
                }
            }
        },
    }
}

fn parse_member(s: &[u8], i: usize) -> (r: Result<(GmlSurfaceMember, usize), DeserializeError>)
    requires
        i <= s@.len(),
    ensures
        ({
            let sp = spec_member(s@, i as int);
            match r {
                Ok((v, k)) => sp is Ok && v@ == sp->Ok_0.0 && k as int == sp->Ok_0.1 && k
                    <= s@.len(),
                Err(e) => sp is Err && e == sp->Err_0,
            }
        }),
{
    let (attrs, sc, j) = match parse_tag_open(s, i, "gml:surfaceMember".as_bytes()) {
        Ok(t) => t,
        Err(e) => {
            return Err(e);
        },
    };
    let href = attr_value_from(&attrs, 0, "xlink:href".as_bytes());
    proof {
        assert(attrs@.map_values(|a: Attr| a@).skip(0) =~= attrs@.map_values(|a: Attr| a@));
    }
    if sc {
        return Ok((GmlSurfaceMember { href, polygon: None }, j));
    }
    let j1 = skip_ws(s, j);
    match parse_tag_close(s, j1, "gml:surfaceMember".as_bytes()) {
        Ok(k) => Ok((GmlSurfaceMember { href, polygon: None }, k)),
        Err(_) => {
            let (poly, k) = match parse_polygon(s, j1) {
                Ok(t) => t,
                Err(e) => {
                    return Err(e);
                },
            };
            let k1 = skip_ws(s, k);
            match parse_tag_close(s, k1, "gml:surfaceMember".as_bytes()) {
                Err(e) => Err(e),
                Ok(m) => Ok((GmlSurfaceMember { href, polygon: Some(poly) }, m)),
            }
        },
    }
}

/// The surface members of the root element from `i` up to and including
/// the root's close tag.
pub open spec fn spec_members(s: Seq<u8>, i: int) -> Result<
    (Seq<MemberShape>, int),
    DeserializeError,
>
    decreases s.len() - i,
{
    let j = spec_skip_ws(s, i);
    match spec_tag_close(s, j, tag_multi_surface()) {
        Ok(k) => Ok((Seq::empty(), k)),
        Err(_) => match spec_member(s, j) {
            Err(e) => Err(e),
            Ok((member, k)) => if k <= i || s.len() < k {
                // unreachable: a member spans at least one byte and ends
                // inside the input; keeps the recursion visibly decreasing
                Err(DeserializeError::MalformedTag)
            } else {
                match spec_members(s, k) {
                    Err(e) => Err(e),
                    Ok((rest, m)) => Ok((seq![member] + rest, m)),
                }
            },
        },
    }
}

fn parse_members(s: &[u8], i: usize) -> (r: Result<
    (Vec<GmlSurfaceMember>, usize),
    DeserializeError,
>)
    requires
        i <= s@.len(),
    ensures
        ({
            let sp = spec_members(s@, i as int);
            match r {
                Ok((v, k)) => sp is Ok && v@.map_values(|x: GmlSurfaceMember| x@) == sp->Ok_0.0 && k
                    as int == sp->Ok_0.1 && k <= s@.len(),
                Err(e) => sp is Err && e == sp->Err_0,
            }
        }),
    decreases s@.len() - i,
{
    let j = skip_ws(s, i);
    match parse_tag_close(s, j, "gml:MultiSurface".as_bytes()) {
        Ok(k) => {
            proof {
                assert(Seq::<GmlSurfaceMember>::empty().map_values(|x: GmlSurfaceMember| x@)
                    =~= Seq::<MemberShape>::empty());
            }
            Ok((Vec::new(), k))
        },
        Err(_) => {
            let (member, k) = match parse_member(s, j) {
                Ok(t) => t,
                Err(e) => {
                    return Err(e);
                },
            };
            if k <= i {
                return Err(DeserializeError::MalformedTag);
            }
            let (rest, m) = match parse_members(s, k) {
                Ok(t) => t,
                Err(e) => {
                    return Err(e);
                },
            };
            let mut v = rest;
            v.insert(0, member);
            proof {
                assert(v@.map_values(|x: GmlSurfaceMember| x@) =~= seq![
                    spec_member(s@, j as int)->Ok_0.0,
                ] + spec_members(s@, k as int)->Ok_0.0);
            }
            Ok((v, m))
        },
    }
}

/// A whole document: optional whitespace, an optional processing
/// directive such as an XML declaration, one `gml:MultiSurface` element,
/// optional whitespace, end of input.
pub open spec fn spec_document(s: Seq<u8>) -> Result<MultiSurfaceShape, DeserializeError> {
    let i0 = spec_skip_ws(s, 0);
    let i = if i0 + 1 < s.len() && s[i0] == 60 && s[i0 + 1] == 63 {  // "<?"
        spec_skip_ws(s, spec_find(s, i0, 62) + 1)  // past the closing '>'
    } else {
        i0
    };
    match spec_tag_open(s, i, tag_multi_surface()) {
        Err(e) => Err(e),
        Ok((attrs, sc, j)) => {
            let id = spec_attr_value(attrs, attr_id());
            let after: Result<(Seq<MemberShape>, int), DeserializeError> = if sc {
                Ok((Seq::empty(), j))
            } else {
                spec_members(s, j)
            };
            match after {
                Err(e) => Err(e),
                Ok((members, k)) => {
                    let k1 = spec_skip_ws(s, k);
                    if k1 == s.len() {
                        Ok(MultiSurfaceShape { id, members })
                    } else {
                        Err(DeserializeError::TrailingContent)
                    }
                },
            }
        },
    }
}

/// Deserializes markup text into the mapped structure.
///
/// The result is exactly what [`spec_document`] denotes on the input
/// bytes: the mapped structure on success, and the first structural fault
/// otherwise.
pub fn deserialize_multi_surface(s: &[u8]) -> (r: Result<GmlMultiSurface, DeserializeError>)
    ensures
        ({
            let sp = spec_document(s@);
            match r {
                Ok(ms) => sp is Ok && ms@ == sp->Ok_0,
                Err(e) => sp is Err && e == sp->Err_0,
            }
        }),
{
    let i0 = skip_ws(s, 0);
    let i = if i0 < s.len() && i0 + 1 < s.len() && s[i0] == 60 && s[i0 + 1] == 63 {
        let e = find_byte(s, i0, 62);
        if e >= s.len() {
            proof {
                assert(spec_skip_ws(s@, e as int + 1) == e + 1);
                assert(spec_document(s@) is Err);
                assert(spec_document(s@)->Err_0 == DeserializeError::UnexpectedEnd);
            }
            return Err(DeserializeError::UnexpectedEnd);
        }
        skip_ws(s, e + 1)
    } else {
        i0
    };
    let (attrs, sc, j) = match parse_tag_open(s, i, "gml:MultiSurface".as_bytes()) {
        Ok(t) => t,
        Err(e) => {
            return Err(e);
        },
    };
    let id = attr_value_from(&attrs, 0, "gml:id".as_bytes());
    proof {
        assert(attrs@.map_values(|a: Attr| a@).skip(0) =~= attrs@.map_values(|a: Attr| a@));
    }
    let (members, k) = if sc {
        (Vec::new(), j)
    } else {
        match parse_members(s, j) {
            Ok(t) => t,
            Err(e) => {
                return Err(e);
            },
        }
    };
    let k1 = skip_ws(s, k);
    if k1 == s.len() {
        let ms = GmlMultiSurface { id, members };
        proof {
            if sc {
                assert(Seq::<GmlSurfaceMember>::empty().map_values(|x: GmlSurfaceMember| x@)
                    =~= Seq::<MemberShape>::empty());
            }
        }
        Ok(ms)
    } else {
        Err(DeserializeError::TrailingContent)
    }
}

} // verus!
