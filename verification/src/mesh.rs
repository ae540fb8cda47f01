//! Wavefront OBJ meshes: the record that each line holds, and the index buffer that
//! shares one vertex among all the faces that name the same position/uv/normal triple.
use crate::cells::Cell;
use crate::cells::{lemma_drop_last_contains, lemma_push_contains};
use crate::grid::{cell_key, key_of, lemma_cell_key_injective};
use std::collections::HashMap;
use vstd::prelude::*;

verus! {

/// The pieces of `s` between the occurrences of `sep`, as `str::split` yields them: one
/// more piece than there are separators, empty pieces included.
pub open spec fn split_on(s: Seq<u8>, sep: u8) -> Seq<Seq<u8>>
    decreases s.len(),
{
    if s.len() == 0 {
        seq![Seq::<u8>::empty()]
    } else {
        let parts = split_on(s.drop_last(), sep);
        if s.last() == sep {
            parts.push(Seq::<u8>::empty())
        } else {
            parts.update(parts.len() - 1, parts.last().push(s.last()))
        }
    }
}

pub proof fn lemma_split_on_nonempty(s: Seq<u8>, sep: u8)
    ensures
        split_on(s, sep).len() >= 1,
    decreases s.len(),
{
    if s.len() > 0 {
        lemma_split_on_nonempty(s.drop_last(), sep);
    }
}

/// Splits `s` at every `sep`, as `str::split` does.
pub fn split_bytes(s: &[u8], sep: u8) -> (parts: Vec<Vec<u8>>)
    ensures
        parts@.map_values(|p: Vec<u8>| p@) == split_on(s@, sep),
{
    let n = s.len();
    let mut parts: Vec<Vec<u8>> = Vec::new();
    let mut cur: Vec<u8> = Vec::new();
    let mut i: usize = 0;
    proof {
        assert(s@.take(0) =~= Seq::<u8>::empty());
        assert(parts@.map_values(|p: Vec<u8>| p@).push(cur@) =~= split_on(s@.take(0), sep));
    }
    while i < n
        invariant
            n == s@.len(),
            i <= n,
            parts@.map_values(|p: Vec<u8>| p@).push(cur@) == split_on(s@.take(i as int), sep),
        decreases n - i,
    {
        let b = s[i];
        let ghost before = parts@.map_values(|p: Vec<u8>| p@).push(cur@);
        proof {
            assert(s@.take(i + 1).drop_last() =~= s@.take(i as int));
            assert(s@.take(i + 1).last() == b);
        }
        if b == sep {
            let mut done: Vec<u8> = Vec::new();
            std::mem::swap(&mut cur, &mut done);
            parts.push(done);
            proof {
                assert(parts@.map_values(|p: Vec<u8>| p@).push(cur@) =~= before.push(Seq::<u8>::empty()));
            }
        } else {
            cur.push(b);
            proof {
                assert(parts@.map_values(|p: Vec<u8>| p@).push(cur@) =~= before.update(
                    before.len() - 1,
                    before.last().push(b),
                ));
            }
        }
        i = i + 1;
    }
    proof {
        assert(s@.take(n as int) =~= s@);
    }
    parts.push(cur);
    parts
}

/// Whether `s` begins with `prefix`.
pub open spec fn starts_with(s: Seq<u8>, prefix: Seq<u8>) -> bool {
    prefix.len() <= s.len() && s.take(prefix.len() as int) == prefix
}

fn has_prefix(s: &[u8], prefix: &[u8]) -> (r: bool)
    ensures
        r == starts_with(s@, prefix@),
{
    if prefix.len() > s.len() {
        return false;
    }
    let mut i: usize = 0;
    while i < prefix.len()
        invariant
            prefix@.len() <= s@.len(),
            i <= prefix@.len(),
            forall|m: int| 0 <= m < i ==> s@[m] == prefix@[m],
        decreases prefix@.len() - i,
    {
        if s[i] != prefix[i] {
            proof {
                assert(s@.take(prefix@.len() as int)[i as int] != prefix@[i as int]);
            }
            return false;
        }
        i = i + 1;
    }
    proof {
        assert(s@.take(prefix@.len() as int) =~= prefix@);
    }
    true
}

/// Whether `s` ends with `suffix`.
pub open spec fn ends_with(s: Seq<u8>, suffix: Seq<u8>) -> bool {
    suffix.len() <= s.len() && s.skip(s.len() - suffix.len()) == suffix
}

/// Whether `s` ends with `suffix`.
pub fn has_suffix(s: &[u8], suffix: &[u8]) -> (r: bool)
    ensures
        r == ends_with(s@, suffix@),
{
    if suffix.len() > s.len() {
        return false;
    }
    let off = s.len() - suffix.len();
    let mut i: usize = 0;
    while i < suffix.len()
        invariant
            suffix@.len() <= s@.len(),
            off + suffix@.len() == s@.len(),
            s@.len() == s.len(),
            i <= suffix@.len(),
            forall|m: int| 0 <= m < i ==> s@[off + m] == suffix@[m],
        decreases suffix@.len() - i,
    {
        if s[off + i] != suffix[i] {
            proof {
                assert(s@.skip(off as int)[i as int] != suffix@[i as int]);
            }
            return false;
        }
        i = i + 1;
    }
    proof {
        assert(s@.skip(off as int) =~= suffix@);
    }
    true
}

/// Whether `b` is an ASCII decimal digit.
pub open spec fn is_digit(b: u8) -> bool {
    48 <= b <= 57
}

pub open spec fn all_digits(s: Seq<u8>) -> bool {
    forall|m: int| 0 <= m < s.len() ==> is_digit(#[trigger] s[m])
}

/// The number that a string of decimal digits writes.
pub open spec fn digits_value(s: Seq<u8>) -> int
    decreases s.len(),
{
    if s.len() == 0 {
        0
    } else {
        digits_value(s.drop_last()) * 10 + (s.last() - 48)
    }
}

/// What `str::parse::<i32>` gives for `s`: an optional sign, then at least one decimal
/// digit, and a value in the range of `i32`; `None` for anything else.
pub open spec fn parse_i32_spec(s: Seq<u8>) -> Option<i32> {
    if s.len() > 0 && (s[0] == 43u8 || s[0] == 45u8) {
        let rest = s.drop_first();
        if rest.len() > 0 && all_digits(rest) {
            let v = if s[0] == 45u8 {
                -digits_value(rest)
            } else {
                digits_value(rest)
            };
            if i32::MIN <= v <= i32::MAX {
                Some(v as i32)
            } else {
                None
            }
        } else {
            None
        }
    } else if s.len() > 0 && all_digits(s) && digits_value(s) <= i32::MAX {
        Some(digits_value(s) as i32)
    } else {
        None
    }
}

proof fn lemma_digits_value_monotone(s: Seq<u8>, m: int, n: int)
    requires
        all_digits(s),
        0 <= m <= n <= s.len(),
    ensures
        digits_value(s.take(m)) <= digits_value(s.take(n)),
        0 <= digits_value(s.take(m)),
    decreases n - m,
{
    if m == n {
        lemma_digits_value_nonneg(s.take(m));
    } else {
        lemma_digits_value_monotone(s, m, n - 1);
        assert(s.take(n).drop_last() =~= s.take(n - 1));
        assert(is_digit(s[n - 1]));
    }
}

proof fn lemma_digits_value_nonneg(s: Seq<u8>)
    requires
        all_digits(s),
    ensures
        0 <= digits_value(s),
    decreases s.len(),
{
    if s.len() > 0 {
        assert(all_digits(s.drop_last())) by {
            assert forall|m: int| 0 <= m < s.drop_last().len() implies is_digit(#[trigger] s.drop_last()[m]) by {
                assert(s.drop_last()[m] == s[m]);
            }
        }
        lemma_digits_value_nonneg(s.drop_last());
        assert(is_digit(s[s.len() - 1]));
    }
}

/// Reads the digits `s[start..]`: their value where they are all digits, at least one,
/// and the value is at most `bound`; `None` otherwise.
fn read_digits(s: &[u8], start: usize, bound: i64) -> (r: Option<i64>)
    requires
        start <= s@.len(),
        0 <= bound <= 2147483648,
    ensures
        r matches Some(v) ==> ({
            let d = s@.skip(start as int);
            &&& d.len() > 0
            &&& all_digits(d)
            &&& v == digits_value(d)
            &&& 0 <= v <= bound
        }),
        r is None ==> ({
            let d = s@.skip(start as int);
            d.len() == 0 || !all_digits(d) || digits_value(d) > bound
        }),
{
    let ghost d = s@.skip(start as int);
    if start == s.len() {
        return None;
    }
    let mut v: i64 = 0;
    let mut i: usize = start;
    proof {
        assert(d.take(0) =~= Seq::<u8>::empty());
    }
    while i < s.len()
        invariant
            d == s@.skip(start as int),
            start <= i <= s@.len(),
            0 <= bound <= 2147483648,
            all_digits(d.take(i - start)),
            v == digits_value(d.take(i - start)),
            0 <= v <= bound,
        decreases s@.len() - i,
    {
        let b = s[i];
        proof {
            assert(d[i - start] == b);
            assert(d.take(i - start + 1).drop_last() =~= d.take(i - start));
        }
        if b < 48u8 || b > 57u8 {
            return None;
        }
        v = v * 10 + (b - 48u8) as i64;
        if v > bound {
            proof {
                assert(all_digits(d.take(i - start + 1))) by {
                    assert forall|m: int| 0 <= m < d.take(i - start + 1).len() implies is_digit(
                        #[trigger] d.take(i - start + 1)[m],
                    ) by {
                        if m < i - start {
                            assert(d.take(i - start + 1)[m] == d.take(i - start)[m]);
                        }
                    }
                }
                if all_digits(d) {
                    lemma_digits_value_monotone(d, i - start + 1, d.len() as int);
                    assert(d.take(d.len() as int) =~= d);
                }
            }
            return None;
        }
        proof {
            assert(all_digits(d.take(i - start + 1))) by {
                assert forall|m: int| 0 <= m < d.take(i - start + 1).len() implies is_digit(
                    #[trigger] d.take(i - start + 1)[m],
                ) by {
                    if m < i - start {
                        assert(d.take(i - start + 1)[m] == d.take(i - start)[m]);
                    }
                }
            }
        }
        i = i + 1;
    }
    proof {
        assert(d.take(i - start) =~= d);
    }
    Some(v)
}

/// Parses a decimal `i32` as `str::parse::<i32>` does.
pub fn parse_i32(s: &[u8]) -> (r: Option<i32>)
    ensures
        r == parse_i32_spec(s@),
{
    if s.len() > 0 && (s[0] == 43u8 || s[0] == 45u8) {
        let negative = s[0] == 45u8;
        let bound: i64 = if negative { 2147483648 } else { 2147483647 };
        proof {
            assert(s@.skip(1) =~= s@.drop_first());
        }
        match read_digits(s, 1, bound) {
            Some(v) => {
                if negative {
                    Some((-v) as i32)
                } else {
                    Some(v as i32)
                }
            },
            None => None,
        }
    } else {
        proof {
            assert(s@.skip(0) =~= s@);
        }
        match read_digits(s, 0, 2147483647) {
            Some(v) => Some(v as i32),
            None => None,
        }
    }
}


/// Why a line of an OBJ file cannot be read.
#[derive(PartialEq, Eq, Structural, Debug, Clone, Copy)]
pub enum ObjError {
    /// A field that the line's kind needs is not there.
    MissingField,
    /// A face index is not a decimal `i32`.
    BadIndex,
}

/// What one line of an OBJ file holds. The coordinates of positions, normals and
/// texture coordinates are the fields as written (decimal floating-point text).
pub enum ObjLine {
    /// `vt u v`
    TexCoord(Vec<u8>, Vec<u8>),
    /// `vn x y z`
    Normal(Vec<u8>, Vec<u8>, Vec<u8>),
    /// `v x y z`
    Position(Vec<u8>, Vec<u8>, Vec<u8>),
    /// `f a b c`, each corner a `position/uv/normal` triple of 1-based indices.
    Face(Cell, Cell, Cell),
    /// Anything else (comments, groups, materials, ...).
    Other,
}

/// An `ObjLine` with its fields as byte sequences.
pub enum ObjLineView {
    TexCoord(Seq<u8>, Seq<u8>),
    Normal(Seq<u8>, Seq<u8>, Seq<u8>),
    Position(Seq<u8>, Seq<u8>, Seq<u8>),
    Face(Cell, Cell, Cell),
    Other,
}

impl View for ObjLine {
    type V = ObjLineView;

    open spec fn view(&self) -> ObjLineView {
        match self {
            ObjLine::TexCoord(u, v) => ObjLineView::TexCoord(u@, v@),
            ObjLine::Normal(x, y, z) => ObjLineView::Normal(x@, y@, z@),
            ObjLine::Position(x, y, z) => ObjLineView::Position(x@, y@, z@),
            ObjLine::Face(a, b, c) => ObjLineView::Face(*a, *b, *c),
            ObjLine::Other => ObjLineView::Other,
        }
    }
}

pub open spec fn view_line_result(r: Result<ObjLine, ObjError>) -> Result<ObjLineView, ObjError> {
    match r {
        Ok(l) => Ok(l@),
        Err(e) => Err(e),
    }
}

/// One corner of a face, `a/b/c`: the first three `/`-separated parts, read in order.
pub open spec fn face_corner_spec(tok: Seq<u8>) -> Result<Cell, ObjError> {
    let ps = split_on(tok, 47u8);
    match parse_i32_spec(ps[0]) {
        None => Err(ObjError::BadIndex),
        Some(a) => if ps.len() < 2 {
            Err(ObjError::MissingField)
        } else {
            match parse_i32_spec(ps[1]) {
                None => Err(ObjError::BadIndex),
                Some(b) => if ps.len() < 3 {
                    Err(ObjError::MissingField)
                } else {
                    match parse_i32_spec(ps[2]) {
                        None => Err(ObjError::BadIndex),
                        Some(c) => Ok((a, b, c)),
                    }
                },
            }
        },
    }
}

/// The three corners of a face line whose space-separated parts are `parts`, read in order.
pub open spec fn face_spec(parts: Seq<Seq<u8>>) -> Result<ObjLineView, ObjError> {
    if parts.len() < 2 {
        Err(ObjError::MissingField)
    } else {
        match face_corner_spec(parts[1]) {
            Err(e) => Err(e),
            Ok(a) => if parts.len() < 3 {
                Err(ObjError::MissingField)
            } else {
                match face_corner_spec(parts[2]) {
                    Err(e) => Err(e),
                    Ok(b) => if parts.len() < 4 {
                        Err(ObjError::MissingField)
                    } else {
                        match face_corner_spec(parts[3]) {
                            Err(e) => Err(e),
                            Ok(c) => Ok(ObjLineView::Face(a, b, c)),
                        }
                    },
                }
            },
        }
    }
}

/// What a line of an OBJ file holds. The kind comes from the line's first characters,
/// tried in the order `vt`, `vn`, `v`, `f`; the fields are the space-separated parts
/// after the first.
pub open spec fn obj_line_spec(line: Seq<u8>) -> Result<ObjLineView, ObjError> {
    let parts = split_on(line, 32u8);
    if starts_with(line, seq![118u8, 116u8]) {
        if parts.len() < 3 {
            Err(ObjError::MissingField)
        } else {
            Ok(ObjLineView::TexCoord(parts[1], parts[2]))
        }
    } else if starts_with(line, seq![118u8, 110u8]) {
        if parts.len() < 4 {
            Err(ObjError::MissingField)
        } else {
            Ok(ObjLineView::Normal(parts[1], parts[2], parts[3]))
        }
    } else if starts_with(line, seq![118u8]) {
        if parts.len() < 4 {
            Err(ObjError::MissingField)
        } else {
            Ok(ObjLineView::Position(parts[1], parts[2], parts[3]))
        }
    } else if starts_with(line, seq![102u8]) {
        face_spec(parts)
    } else {
        Ok(ObjLineView::Other)
    }
}

/// Reads one corner `a/b/c` of a face.
fn parse_face_corner(tok: &Vec<u8>) -> (r: Result<Cell, ObjError>)
    ensures
        r == face_corner_spec(tok@),
{
    let ps = split_bytes(tok.as_slice(), 47u8);
    proof {
        lemma_split_on_nonempty(tok@, 47u8);
        assert(ps@.len() == split_on(tok@, 47u8).len());
        assert(forall|m: int| 0 <= m < ps@.len() ==> #[trigger] ps@[m]@ == split_on(tok@, 47u8)[m]);
    }
    let a = match parse_i32(ps[0].as_slice()) {
        Some(v) => v,
        None => return Err(ObjError::BadIndex),
    };
    if ps.len() < 2 {
        return Err(ObjError::MissingField);
    }
    let b = match parse_i32(ps[1].as_slice()) {
        Some(v) => v,
        None => return Err(ObjError::BadIndex),
    };
    if ps.len() < 3 {
        return Err(ObjError::MissingField);
    }
    let c = match parse_i32(ps[2].as_slice()) {
        Some(v) => v,
        None => return Err(ObjError::BadIndex),
    };
    Ok((a, b, c))
}

/// Reads one line of an OBJ file (without its line break).
pub fn parse_obj_line(line: &[u8]) -> (r: Result<ObjLine, ObjError>)
    ensures
        view_line_result(r) == obj_line_spec(line@),
{
    let mut parts = split_bytes(line, 32u8);
    let ghost ps = split_on(line@, 32u8);
    proof {
        assert(parts@.len() == ps.len());
        assert(forall|m: int| 0 <= m < parts@.len() ==> #[trigger] parts@[m]@ == ps[m]);
        assert(seq![118u8, 116u8] =~= [118u8, 116u8]@);
        assert(seq![118u8, 110u8] =~= [118u8, 110u8]@);
        assert(seq![118u8] =~= [118u8]@);
        assert(seq![102u8] =~= [102u8]@);
    }
    if has_prefix(line, &[118u8, 116u8]) {
        if parts.len() < 3 {
            return Err(ObjError::MissingField);
        }
        let v = parts.remove(2);
        let u = parts.remove(1);
        Ok(ObjLine::TexCoord(u, v))
    } else if has_prefix(line, &[118u8, 110u8]) {
        if parts.len() < 4 {
            return Err(ObjError::MissingField);
        }
        let z = parts.remove(3);
        let y = parts.remove(2);
        let x = parts.remove(1);
        Ok(ObjLine::Normal(x, y, z))
    } else if has_prefix(line, &[118u8]) {
        if parts.len() < 4 {
            return Err(ObjError::MissingField);
        }
        let z = parts.remove(3);
        let y = parts.remove(2);
        let x = parts.remove(1);
        Ok(ObjLine::Position(x, y, z))
    } else if has_prefix(line, &[102u8]) {
        if parts.len() < 2 {
            return Err(ObjError::MissingField);
        }
        let a = match parse_face_corner(&parts[1]) {
            Ok(c) => c,
            Err(e) => return Err(e),
        };
        if parts.len() < 3 {
            return Err(ObjError::MissingField);
        }
        let b = match parse_face_corner(&parts[2]) {
            Ok(c) => c,
            Err(e) => return Err(e),
        };
        if parts.len() < 4 {
            return Err(ObjError::MissingField);
        }
        let c = match parse_face_corner(&parts[3]) {
            Ok(c) => c,
            Err(e) => return Err(e),
        };
        Ok(ObjLine::Face(a, b, c))
    } else {
        Ok(ObjLine::Other)
    }
}


/// The distinct corners of `s`, in the order of their first occurrence.
pub open spec fn first_occurrences(s: Seq<Cell>) -> Seq<Cell>
    decreases s.len(),
{
    if s.len() == 0 {
        Seq::empty()
    } else {
        let u = first_occurrences(s.drop_last());
        if u.contains(s.last()) {
            u
        } else {
            u.push(s.last())
        }
    }
}

/// Gives each distinct `position/uv/normal` corner one vertex, in the order in which the
/// corners first occur, and returns those corners with, for every corner of `corners`,
/// the index of its vertex; `None` where there are more distinct corners than `i32`
/// indices.
pub fn index_faces(corners: &Vec<Cell>) -> (r: Option<(Vec<Cell>, Vec<i32>)>)
    ensures
        r is Some <==> first_occurrences(corners@).len() <= i32::MAX,
        r matches Some(r) ==> {
            &&& r.0@ == first_occurrences(corners@)
            &&& r.1@.len() == corners@.len()
            &&& forall|n: int|
                0 <= n < corners@.len() ==> 0 <= #[trigger] r.1@[n] < r.0@.len() && r.0@[r.1@[n] as int]
                    == corners@[n]
        },
{
    let mut triple_to_index: HashMap<u128, i32> = HashMap::new();
    let mut unique: Vec<Cell> = Vec::new();
    let mut element_indices: Vec<i32> = Vec::new();
    let mut next_index: i32 = 0;
    let n = corners.len();
    let mut i: usize = 0;
    proof {
        assert(corners@.take(0) =~= Seq::<Cell>::empty());
    }
    while i < n
        invariant
            n == corners@.len(),
            i <= n,
            unique@ == first_occurrences(corners@.take(i as int)),
            next_index as int == unique@.len(),
            element_indices@.len() == i,
            forall|m: int|
                0 <= m < i ==> 0 <= #[trigger] element_indices@[m] < unique@.len()
                    && unique@[element_indices@[m] as int] == corners@[m],
            forall|c: Cell|
                #![trigger triple_to_index@.contains_key(cell_key(c))]
                triple_to_index@.contains_key(cell_key(c)) <==> unique@.contains(c),
            forall|c: Cell|
                #![trigger triple_to_index@[cell_key(c)]]
                triple_to_index@.contains_key(cell_key(c)) ==> 0 <= triple_to_index@[cell_key(c)]
                    < unique@.len() && unique@[triple_to_index@[cell_key(c)] as int] == c,
        decreases n - i,
    {
        let triple = corners[i];
        let k = key_of(triple);
        proof {
            assert(corners@.take(i + 1).drop_last() =~= corners@.take(i as int));
            assert(corners@.take(i + 1).last() == triple);
        }
        let idx = match triple_to_index.get(&k) {
            Some(found) => *found,
            None => {
                proof {
                    lemma_first_occurrences_len(corners@, i + 1);
                }
                if next_index == i32::MAX {
                    return None;
                }
                let ghost old_map = triple_to_index@;
                let ghost old_unique = unique@;
                triple_to_index.insert(k, next_index);
                unique.push(triple);
                let assigned = next_index;
                next_index = next_index + 1;
                proof {
                    assert forall|c: Cell| #[trigger] triple_to_index@.contains_key(cell_key(c)) <==> unique@.contains(c) by {
                        lemma_push_contains(old_unique, triple, c);
                        assert(old_map.contains_key(cell_key(c)) <==> old_unique.contains(c));
                        assert(triple_to_index@.contains_key(cell_key(c)) <==> (old_map.contains_key(cell_key(c))
                            || cell_key(c) == k));
                        if cell_key(c) == k {
                            lemma_cell_key_injective(c, triple);
                        }
                    }
                    assert forall|c: Cell| #[trigger] triple_to_index@.contains_key(cell_key(c)) implies 0 <= triple_to_index@[cell_key(c)]
                        < unique@.len() && unique@[triple_to_index@[cell_key(c)] as int] == c by {
                        if cell_key(c) == k {
                            lemma_cell_key_injective(c, triple);
                        } else {
                            assert(old_map.contains_key(cell_key(c)));
                        }
                    }
                }
                assigned
            },
        };
        element_indices.push(idx);
        i = i + 1;
    }
    proof {
        assert(corners@.take(n as int) =~= corners@);
    }
    Some((unique, element_indices))
}

/// The distinct corners of a prefix are no more than those of the whole sequence.
proof fn lemma_first_occurrences_len(s: Seq<Cell>, m: int)
    requires
        0 <= m <= s.len(),
    ensures
        first_occurrences(s.take(m)).len() <= first_occurrences(s).len(),
    decreases s.len() - m,
{
    if m < s.len() {
        lemma_first_occurrences_len(s, m + 1);
        assert(s.take(m + 1).drop_last() =~= s.take(m));
    } else {
        assert(s.take(m) =~= s);
    }
}

/// The distinct corners hold every corner once.
pub proof fn lemma_first_occurrences(s: Seq<Cell>)
    ensures
        first_occurrences(s).no_duplicates(),
        forall|c: Cell| first_occurrences(s).contains(c) <==> s.contains(c),
    decreases s.len(),
{
    if s.len() > 0 {
        let t = s.drop_last();
        let u = first_occurrences(t);
        lemma_first_occurrences(t);
        assert forall|c: Cell| first_occurrences(s).contains(c) <==> s.contains(c) by {
            lemma_push_contains(u, s.last(), c);
            lemma_drop_last_contains(s, c);
            assert(u.contains(c) <==> t.contains(c));
            assert(u.contains(s.last()) <==> t.contains(s.last()));
        }
    }
}


/// The pieces joined back together with `sep` between them.
pub open spec fn join_with(parts: Seq<Seq<u8>>, sep: u8) -> Seq<u8>
    decreases parts.len(),
{
    if parts.len() == 0 {
        Seq::empty()
    } else if parts.len() == 1 {
        parts[0]
    } else {
        join_with(parts.drop_last(), sep).push(sep) + parts.last()
    }
}

/// Splitting loses nothing: joining the pieces with the separator gives the input back,
/// and no piece holds the separator.
pub proof fn lemma_split_join(s: Seq<u8>, sep: u8)
    ensures
        join_with(split_on(s, sep), sep) == s,
        forall|n: int| 0 <= n < split_on(s, sep).len() ==> !(#[trigger] split_on(s, sep)[n]).contains(sep),
    decreases s.len(),
{
    lemma_split_on_nonempty(s, sep);
    if s.len() == 0 {
        assert(split_on(s, sep)[0].len() == 0);
        assert(join_with(split_on(s, sep), sep) == split_on(s, sep)[0]);
        assert(split_on(s, sep)[0] =~= s);
    } else {
        let t = s.drop_last();
        let x = s.last();
        let parts = split_on(t, sep);
        lemma_split_join(t, sep);
        lemma_split_on_nonempty(t, sep);
        if x == sep {
            let q = parts.push(Seq::<u8>::empty());
            assert(q.drop_last() =~= parts);
            assert(join_with(q, sep) =~= join_with(parts, sep).push(sep));
            assert(t.push(sep) =~= s);
            assert forall|n: int| 0 <= n < q.len() implies !(#[trigger] q[n]).contains(sep) by {
                if n < parts.len() {
                    assert(q[n] == parts[n]);
                }
            }
        } else {
            let q = parts.update(parts.len() - 1, parts.last().push(x));
            if parts.len() == 1 {
                assert(join_with(q, sep) == q[0]);
                assert(join_with(parts, sep) == parts[0]);
            } else {
                assert(q.drop_last() =~= parts.drop_last());
                assert(join_with(q, sep) == join_with(parts.drop_last(), sep).push(sep) + parts.last().push(x));
                assert(join_with(parts.drop_last(), sep).push(sep) + parts.last().push(x) =~= (join_with(
                    parts.drop_last(),
                    sep,
                ).push(sep) + parts.last()).push(x));
            }
            assert(t.push(x) =~= s);
            assert forall|n: int| 0 <= n < q.len() implies !(#[trigger] q[n]).contains(sep) by {
                if n < parts.len() - 1 {
                    assert(q[n] == parts[n]);
                } else {
                    crate::cells::lemma_push_contains(parts.last(), x, sep);
                    assert(!parts[parts.len() - 1].contains(sep));
                }
            }
        }
    }
}


/// A piece without the separator splits into itself alone.
pub proof fn lemma_split_no_sep(t: Seq<u8>, sep: u8)
    requires
        !t.contains(sep),
    ensures
        split_on(t, sep) == seq![t],
    decreases t.len(),
{
    if t.len() == 0 {
        assert(t =~= Seq::<u8>::empty());
        assert(split_on(t, sep) =~= seq![t]);
    } else {
        let u = t.drop_last();
        assert(!u.contains(sep)) by {
            if u.contains(sep) {
                let n = choose|n: int| 0 <= n < u.len() && u[n] == sep;
                assert(t[n] == sep);
            }
        }
        lemma_split_no_sep(u, sep);
        assert(t[t.len() - 1] != sep);
        assert(u.push(t.last()) =~= t);
        assert(split_on(t, sep) =~= seq![t]);
    }
}

/// A separator splits: the pieces of `s`, separator, `t` are those of `s` then those of `t`.
pub proof fn lemma_split_concat(s: Seq<u8>, t: Seq<u8>, sep: u8)
    ensures
        split_on(s.push(sep) + t, sep) == split_on(s, sep) + split_on(t, sep),
    decreases t.len(),
{
    lemma_split_on_nonempty(s, sep);
    if t.len() == 0 {
        assert(s.push(sep) + t =~= s.push(sep));
        assert(s.push(sep).drop_last() =~= s);
        assert(split_on(s, sep).push(Seq::<u8>::empty()) =~= split_on(s, sep) + split_on(t, sep));
    } else {
        let u = t.drop_last();
        let x = t.last();
        lemma_split_concat(s, u, sep);
        lemma_split_on_nonempty(u, sep);
        let whole = s.push(sep) + t;
        assert(whole.drop_last() =~= s.push(sep) + u);
        assert(whole.last() == x);
        let a = split_on(s, sep);
        let b = split_on(u, sep);
        if x == sep {
            assert((a + b).push(Seq::<u8>::empty()) =~= a + b.push(Seq::<u8>::empty()));
        } else {
            assert((a + b).update((a + b).len() - 1, (a + b).last().push(x)) =~= a + b.update(
                b.len() - 1,
                b.last().push(x),
            ));
        }
    }
}

/// Pieces without the separator, joined with it, split back into the same pieces.
pub proof fn lemma_split_of_join(fields: Seq<Seq<u8>>, sep: u8)
    requires
        fields.len() >= 1,
        forall|n: int| 0 <= n < fields.len() ==> !(#[trigger] fields[n]).contains(sep),
    ensures
        split_on(join_with(fields, sep), sep) == fields,
    decreases fields.len(),
{
    if fields.len() == 1 {
        lemma_split_no_sep(fields[0], sep);
        assert(seq![fields[0]] =~= fields);
    } else {
        let d = fields.drop_last();
        assert(forall|n: int| 0 <= n < d.len() ==> #[trigger] d[n] == fields[n]);
        lemma_split_of_join(d, sep);
        lemma_split_concat(join_with(d, sep), fields.last(), sep);
        assert(!fields[fields.len() - 1].contains(sep));
        lemma_split_no_sep(fields.last(), sep);
        assert(d + seq![fields.last()] =~= fields);
    }
}

/// The first piece of a join, followed by the separator where more pieces follow, begins
/// the joined line.
pub proof fn lemma_join_prefix(fields: Seq<Seq<u8>>, sep: u8)
    requires
        fields.len() >= 1,
    ensures
        fields.len() == 1 ==> join_with(fields, sep) == fields[0],
        fields.len() >= 2 ==> fields[0].len() + 1 <= join_with(fields, sep).len() && join_with(
            fields,
            sep,
        ).take(fields[0].len() + 1int) == fields[0].push(sep),
    decreases fields.len(),
{
    if fields.len() >= 2 {
        let d = fields.drop_last();
        lemma_join_prefix(d, sep);
        let j = join_with(d, sep);
        assert(d[0] == fields[0]);
        if d.len() == 1 {
            assert((j.push(sep) + fields.last()).take(fields[0].len() + 1int) =~= fields[0].push(sep));
        } else {
            assert((j.push(sep) + fields.last()).take(fields[0].len() + 1int) =~= j.take(fields[0].len() + 1int));
        }
    }
}

/// Whether no piece holds a space.
pub open spec fn no_spaces(fields: Seq<Seq<u8>>) -> bool {
    forall|n: int| 0 <= n < fields.len() ==> !(#[trigger] fields[n]).contains(32u8)
}

proof fn lemma_line_parts(fields: Seq<Seq<u8>>)
    requires
        fields.len() >= 2,
        no_spaces(fields),
    ensures
        split_on(join_with(fields, 32u8), 32u8) == fields,
        fields[0].len() + 1 <= join_with(fields, 32u8).len(),
        join_with(fields, 32u8).take(fields[0].len() + 1int) == fields[0].push(32u8),
{
    lemma_split_of_join(fields, 32u8);
    lemma_join_prefix(fields, 32u8);
}

/// `vn x y z` (fields without spaces) reads as the normal `(x, y, z)`, in that order.
pub proof fn lemma_obj_normal(x: Seq<u8>, y: Seq<u8>, z: Seq<u8>)
    requires
        no_spaces(seq![x, y, z]),
    ensures
        obj_line_spec(join_with(seq![seq![118u8, 110u8], x, y, z], 32u8)) == Ok::<ObjLineView, ObjError>(
            ObjLineView::Normal(x, y, z),
        ),
{
    let f = seq![seq![118u8, 110u8], x, y, z];
    assert(no_spaces(f)) by {
        assert forall|n: int| 0 <= n < f.len() implies !(#[trigger] f[n]).contains(32u8) by {
            if n == 0 {
                assert(!seq![118u8, 110u8].contains(32u8));
            } else {
                assert(f[n] == seq![x, y, z][n - 1]);
            }
        }
    }
    lemma_line_parts(f);
    let line = join_with(f, 32u8);
    assert(line.take(3) == seq![118u8, 110u8, 32u8]);
    assert(line[1] == 110u8);
    assert(!starts_with(line, seq![118u8, 116u8])) by {
        assert(seq![118u8, 116u8][1] == 116u8);
        assert(line.take(2)[1] == 110u8);
    }
    assert(starts_with(line, seq![118u8, 110u8])) by {
        assert(line.take(2) =~= seq![118u8, 110u8]);
    }
}

/// `v x y z` (fields without spaces) reads as the position `(x, y, z)`, in that order.
pub proof fn lemma_obj_position(x: Seq<u8>, y: Seq<u8>, z: Seq<u8>)
    requires
        no_spaces(seq![x, y, z]),
    ensures
        obj_line_spec(join_with(seq![seq![118u8], x, y, z], 32u8)) == Ok::<ObjLineView, ObjError>(
            ObjLineView::Position(x, y, z),
        ),
{
    let f = seq![seq![118u8], x, y, z];
    assert(no_spaces(f)) by {
        assert forall|n: int| 0 <= n < f.len() implies !(#[trigger] f[n]).contains(32u8) by {
            if n == 0 {
                assert(!seq![118u8].contains(32u8));
            } else {
                assert(f[n] == seq![x, y, z][n - 1]);
            }
        }
    }
    lemma_line_parts(f);
    let line = join_with(f, 32u8);
    assert(line.take(2) == seq![118u8, 32u8]);
    assert(!starts_with(line, seq![118u8, 116u8])) by {
        assert(line.take(2)[1] == 32u8);
    }
    assert(!starts_with(line, seq![118u8, 110u8])) by {
        assert(line.take(2)[1] == 32u8);
    }
    assert(starts_with(line, seq![118u8])) by {
        assert(line.take(1) =~= seq![118u8]);
    }
}

/// `vt u v` (fields without spaces) reads as the texture coordinate `(u, v)`, in that order.
pub proof fn lemma_obj_texcoord(u: Seq<u8>, v: Seq<u8>)
    requires
        no_spaces(seq![u, v]),
    ensures
        obj_line_spec(join_with(seq![seq![118u8, 116u8], u, v], 32u8)) == Ok::<ObjLineView, ObjError>(
            ObjLineView::TexCoord(u, v),
        ),
{
    let f = seq![seq![118u8, 116u8], u, v];
    assert(no_spaces(f)) by {
        assert forall|n: int| 0 <= n < f.len() implies !(#[trigger] f[n]).contains(32u8) by {
            if n == 0 {
                assert(!seq![118u8, 116u8].contains(32u8));
            } else {
                assert(f[n] == seq![u, v][n - 1]);
            }
        }
    }
    lemma_line_parts(f);
    let line = join_with(f, 32u8);
    assert(line.take(3) == seq![118u8, 116u8, 32u8]);
    assert(starts_with(line, seq![118u8, 116u8])) by {
        assert(line.take(2) =~= seq![118u8, 116u8]);
    }
}


/// A corner `a/b/c` (parts without `/`) reads as the triple of its three parts' values, in
/// order; where a part is not a decimal `i32` the corner is a bad index.
pub proof fn lemma_face_corner(a: Seq<u8>, b: Seq<u8>, c: Seq<u8>)
    requires
        !a.contains(47u8),
        !b.contains(47u8),
        !c.contains(47u8),
    ensures
        ({
            let tok = join_with(seq![a, b, c], 47u8);
            &&& (parse_i32_spec(a) is Some && parse_i32_spec(b) is Some && parse_i32_spec(c) is Some)
                ==> face_corner_spec(tok) == Ok::<Cell, ObjError>(
                (parse_i32_spec(a).unwrap(), parse_i32_spec(b).unwrap(), parse_i32_spec(c).unwrap()),
            )
            &&& (parse_i32_spec(a) is None || parse_i32_spec(b) is None || parse_i32_spec(c) is None)
                ==> face_corner_spec(tok) == Err::<Cell, ObjError>(ObjError::BadIndex)
        }),
{
    let f = seq![a, b, c];
    assert forall|n: int| 0 <= n < f.len() implies !(#[trigger] f[n]).contains(47u8) by {
    }
    lemma_split_of_join(f, 47u8);
}

/// `f p q r` (corners without spaces) reads as the face of the three corners, in order;
/// the first corner that cannot be read decides the error.
pub proof fn lemma_obj_face(p: Seq<u8>, q: Seq<u8>, r: Seq<u8>)
    requires
        no_spaces(seq![p, q, r]),
    ensures
        ({
            let line = join_with(seq![seq![102u8], p, q, r], 32u8);
            &&& (face_corner_spec(p) is Ok && face_corner_spec(q) is Ok && face_corner_spec(r) is Ok)
                ==> obj_line_spec(line) == Ok::<ObjLineView, ObjError>(
                ObjLineView::Face(
                    face_corner_spec(p)->Ok_0,
                    face_corner_spec(q)->Ok_0,
                    face_corner_spec(r)->Ok_0,
                ),
            )
            &&& face_corner_spec(p) matches Err(e) ==> obj_line_spec(line) == Err::<ObjLineView, ObjError>(e)
        }),
{
    let f = seq![seq![102u8], p, q, r];
    assert(no_spaces(f)) by {
        assert forall|n: int| 0 <= n < f.len() implies !(#[trigger] f[n]).contains(32u8) by {
            if n == 0 {
                assert(!seq![102u8].contains(32u8));
            } else {
                assert(f[n] == seq![p, q, r][n - 1]);
            }
        }
    }
    lemma_line_parts(f);
    let line = join_with(f, 32u8);
    assert(line.take(2) == seq![102u8, 32u8]);
    assert(!starts_with(line, seq![118u8, 116u8])) by {
        assert(line.take(2)[0] == 102u8);
    }
    assert(!starts_with(line, seq![118u8, 110u8])) by {
        assert(line.take(2)[0] == 102u8);
    }
    assert(!starts_with(line, seq![118u8])) by {
        assert(line.take(2)[0] == 102u8);
        assert(line.take(1)[0] == 102u8);
    }
    assert(starts_with(line, seq![102u8])) by {
        assert(line.take(1) =~= seq![102u8]);
    }
}

/// A face line with fewer than three corners lacks a field, once its corners read.
pub proof fn lemma_obj_face_short(p: Seq<u8>, q: Seq<u8>)
    requires
        no_spaces(seq![p, q]),
        face_corner_spec(p) is Ok,
        face_corner_spec(q) is Ok,
    ensures
        obj_line_spec(join_with(seq![seq![102u8], p, q], 32u8)) == Err::<ObjLineView, ObjError>(
            ObjError::MissingField,
        ),
{
    let f = seq![seq![102u8], p, q];
    assert(no_spaces(f)) by {
        assert forall|n: int| 0 <= n < f.len() implies !(#[trigger] f[n]).contains(32u8) by {
            if n == 0 {
                assert(!seq![102u8].contains(32u8));
            } else {
                assert(f[n] == seq![p, q][n - 1]);
            }
        }
    }
    lemma_line_parts(f);
    let line = join_with(f, 32u8);
    assert(line.take(2) == seq![102u8, 32u8]);
    assert(!starts_with(line, seq![118u8, 116u8])) by {
        assert(line.take(2)[0] == 102u8);
    }
    assert(!starts_with(line, seq![118u8, 110u8])) by {
        assert(line.take(2)[0] == 102u8);
    }
    assert(!starts_with(line, seq![118u8])) by {
        assert(line.take(1)[0] == 102u8);
    }
    assert(starts_with(line, seq![102u8])) by {
        assert(line.take(1) =~= seq![102u8]);
    }
}

/// Decimal `i32` reading: digits read as their value; a leading `-` negates it and a
/// leading `+` keeps it; the value must lie in `i32`; an empty string, a lone sign, or any
/// other character gives nothing.
pub proof fn lemma_parse_i32(d: Seq<u8>)
    ensures
        d.len() > 0 && all_digits(d) && digits_value(d) <= i32::MAX ==> parse_i32_spec(d) == Some(
            digits_value(d) as i32,
        ),
        d.len() > 0 && all_digits(d) && digits_value(d) <= 2147483648 ==> parse_i32_spec(
            seq![45u8] + d,
        ) == Some((-digits_value(d)) as i32),
        d.len() > 0 && all_digits(d) && digits_value(d) <= i32::MAX ==> parse_i32_spec(seq![43u8] + d)
            == Some(digits_value(d) as i32),
        d.len() > 0 && all_digits(d) && digits_value(d) > 2147483648 ==> parse_i32_spec(seq![45u8] + d)
            is None,
        d.len() > 0 && all_digits(d) && digits_value(d) > i32::MAX ==> parse_i32_spec(d) is None,
        !all_digits(d) && d[0] != 43u8 && d[0] != 45u8 ==> parse_i32_spec(d) is None,
        !all_digits(d) ==> parse_i32_spec(seq![45u8] + d) is None && parse_i32_spec(seq![43u8] + d) is None,
        parse_i32_spec(Seq::<u8>::empty()) is None,
        parse_i32_spec(seq![45u8]) is None,
        parse_i32_spec(seq![43u8]) is None,
{
    assert((seq![45u8] + d).drop_first() =~= d);
    assert((seq![43u8] + d).drop_first() =~= d);
    assert(seq![45u8].drop_first() =~= Seq::<u8>::empty());
    assert(seq![43u8].drop_first() =~= Seq::<u8>::empty());
    assert((seq![45u8] + d)[0] == 45u8);
    assert((seq![43u8] + d)[0] == 43u8);
    if d.len() > 0 && all_digits(d) {
        assert(is_digit(d[0]));
        lemma_digits_value_nonneg(d);
    }
    if !all_digits(d) {
        let m = choose|m: int| 0 <= m < d.len() && !is_digit(#[trigger] d[m]);
        assert(!all_digits(seq![45u8] + d)) by {
            assert((seq![45u8] + d)[0] == 45u8);
        }
        assert(!all_digits(seq![43u8] + d)) by {
            assert((seq![43u8] + d)[0] == 43u8);
        }
    }
    assert(!all_digits(seq![45u8] + d)) by {
        assert((seq![45u8] + d)[0] == 45u8);
    }
}

} // verus!
