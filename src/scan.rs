//! Line-oriented scanning of raw YAML text, used to point diagnostics at the
//! byte where a field is written.
use vstd::prelude::*;

verus! {

/// ASCII whitespace as `char::is_whitespace` sees it (tab to carriage return, space).
pub open spec fn is_space(b: u8) -> bool {
    b == 32u8 || (9u8 <= b && b <= 13u8)
}

/// The number of bytes of the whitespace character (Unicode `White_Space`, as
/// `char::is_whitespace` and `str::trim_start` see it) encoded in UTF-8 at `i`
/// and ending at or before `e`; 0 if there is none.
pub open spec fn ws_len(t: Seq<u8>, i: int, e: int) -> int {
    if 0 <= i < e && is_space(t[i]) {
        1
    } else if 0 <= i && i + 2 <= e && t[i] == 0xC2u8 && (t[i + 1] == 0x85u8 || t[i + 1] == 0xA0u8) {
        2
    } else if 0 <= i && i + 3 <= e && ((t[i] == 0xE1u8 && t[i + 1] == 0x9Au8 && t[i + 2] == 0x80u8) || (
    t[i] == 0xE2u8 && t[i + 1] == 0x80u8 && ((0x80u8 <= t[i + 2] && t[i + 2] <= 0x8Au8) || t[i + 2]
        == 0xA8u8 || t[i + 2] == 0xA9u8 || t[i + 2] == 0xAFu8)) || (t[i] == 0xE2u8 && t[i + 1] == 0x81u8
        && t[i + 2] == 0x9Fu8) || (t[i] == 0xE3u8 && t[i + 1] == 0x80u8 && t[i + 2] == 0x80u8)) {
        3
    } else {
        0
    }
}

/// End (exclusive) of the line that starts at `s`: the first newline at or after
/// `s`, or the end of the text.
pub open spec fn line_end(t: Seq<u8>, s: int) -> int
    decreases t.len() - s,
{
    if s < 0 || s >= t.len() {
        t.len() as int
    } else if t[s] == 10u8 {
        s
    } else {
        line_end(t, s + 1)
    }
}

/// First position in `[i, e)` that does not start a whitespace character, or
/// `e`: what `trim_start` leaves of the line.
pub open spec fn skip_space(t: Seq<u8>, i: int, e: int) -> int
    decreases e - i,
{
    if i >= e {
        i
    } else if ws_len(t, i, e) > 0 {
        skip_space(t, i + ws_len(t, i, e), e)
    } else {
        i
    }
}

/// `p` is written at `i` and ends at or before `e`.
pub open spec fn matches_at(t: Seq<u8>, i: int, e: int, p: Seq<u8>) -> bool {
    0 <= i && i + p.len() <= e && e <= t.len() && t.subrange(i, i + p.len()) == p
}

pub open spec fn colon() -> Seq<u8> {
    seq![58u8]
}

pub open spec fn dash_space() -> Seq<u8> {
    seq![45u8, 32u8]
}

/// Where the line `[s, e)` holds `name:` right after its indentation: the
/// position of the colon.
pub open spec fn plain_key_colon(t: Seq<u8>, s: int, e: int, name: Seq<u8>) -> Option<int> {
    let i = skip_space(t, s, e);
    if matches_at(t, i, e, name + colon()) {
        Some(i + name.len())
    } else {
        None
    }
}

/// As `plain_key_colon`, also accepting the key on a list-item line (`- name:`).
pub open spec fn item_key_colon(t: Seq<u8>, s: int, e: int, name: Seq<u8>) -> Option<int> {
    let i = skip_space(t, s, e);
    if matches_at(t, i, e, name + colon()) {
        Some(i + name.len())
    } else if matches_at(t, i, e, dash_space() + name + colon()) {
        Some(i + 2 + name.len())
    } else {
        None
    }
}

/// The line holds something other than blanks or a comment.
pub open spec fn is_content(t: Seq<u8>, s: int, e: int) -> bool {
    let i = skip_space(t, s, e);
    i < e && t[i] != 35u8
}

pub proof fn lemma_line_end(t: Seq<u8>, s: int)
    requires
        0 <= s <= t.len(),
    ensures
        s <= line_end(t, s) <= t.len(),
        line_end(t, s) < t.len() ==> t[line_end(t, s)] == 10u8,
    decreases t.len() - s,
{
    if s < t.len() && t[s] != 10u8 {
        lemma_line_end(t, s + 1);
    }
}

pub fn line_end_at(t: &[u8], s: usize) -> (e: usize)
    requires
        s <= t@.len(),
    ensures
        e == line_end(t@, s as int),
        s <= e <= t@.len(),
{
    let mut i: usize = s;
    while i < t.len() && t[i] != 10u8
        invariant
            s <= i <= t@.len(),
            line_end(t@, s as int) == line_end(t@, i as int),
        decreases t@.len() - i,
    {
        i = i + 1;
    }
    i
}

pub fn skip_space_at(t: &[u8], i: usize, e: usize) -> (r: usize)
    requires
        i <= e <= t@.len(),
    ensures
        r == skip_space(t@, i as int, e as int),
        i <= r <= e,
{
    let mut k: usize = i;
    let mut w = ws_len_at(t, k, e);
    while w > 0
        invariant
            i <= k <= e,
            e <= t@.len(),
            w == ws_len(t@, k as int, e as int),
            k + w <= e,
            skip_space(t@, i as int, e as int) == skip_space(t@, k as int, e as int),
        decreases e - k,
    {
        k = k + w;
        w = ws_len_at(t, k, e);
    }
    k
}

fn ws_len_at(t: &[u8], i: usize, e: usize) -> (r: usize)
    requires
        i <= e <= t@.len(),
    ensures
        r == ws_len(t@, i as int, e as int),
        i + r <= e,
{
    if i < e && (t[i] == 32u8 || (9u8 <= t[i] && t[i] <= 13u8)) {
        1
    } else if e - i >= 2 && t[i] == 0xC2u8 && (t[i + 1] == 0x85u8 || t[i + 1] == 0xA0u8) {
        2
    } else if e - i >= 3 && ((t[i] == 0xE1u8 && t[i + 1] == 0x9Au8 && t[i + 2] == 0x80u8) || (t[i] == 0xE2u8
        && t[i + 1] == 0x80u8 && ((0x80u8 <= t[i + 2] && t[i + 2] <= 0x8Au8) || t[i + 2] == 0xA8u8 || t[i
        + 2] == 0xA9u8 || t[i + 2] == 0xAFu8)) || (t[i] == 0xE2u8 && t[i + 1] == 0x81u8 && t[i + 2]
        == 0x9Fu8) || (t[i] == 0xE3u8 && t[i + 1] == 0x80u8 && t[i + 2] == 0x80u8)) {
        3
    } else {
        0
    }
}

/// Whether the bytes `p1` followed by `p2` are written at `i`, ending at or before `e`.
pub fn matches_pair_at(t: &[u8], i: usize, e: usize, p1: &[u8], p2: &[u8]) -> (r: bool)
    requires
        i <= e <= t@.len(),
    ensures
        r == matches_at(t@, i as int, e as int, p1@ + p2@),
{
    let n1 = p1.len();
    let n2 = p2.len();
    let ghost p = p1@ + p2@;
    assert(p.len() == n1 + n2);
    if n1 > e - i || n2 > e - i - n1 {
        return false;
    }
    let mut k: usize = 0;
    while k < n1
        invariant
            k <= n1,
            n1 == p1@.len(),
            i + n1 + n2 <= e <= t@.len(),
            p == p1@ + p2@,
            p.len() == n1 + n2,
            forall|j: int| 0 <= j < k ==> t@[i + j] == p1@[j],
        decreases n1 - k,
    {
        if t[i + k] != p1[k] {
            assert(t@.subrange(i as int, i + p.len())[k as int] != p[k as int]);
            return false;
        }
        k = k + 1;
    }
    let mut k: usize = 0;
    while k < n2
        invariant
            k <= n2,
            n1 == p1@.len(),
            n2 == p2@.len(),
            i + n1 + n2 <= e <= t@.len(),
            p == p1@ + p2@,
            p.len() == n1 + n2,
            forall|j: int| 0 <= j < n1 ==> t@[i + j] == p1@[j],
            forall|j: int| 0 <= j < k ==> t@[i + n1 + j] == p2@[j],
        decreases n2 - k,
    {
        if t[i + n1 + k] != p2[k] {
            assert(t@.subrange(i as int, i + p.len())[n1 + k as int] != p[n1 + k as int]);
            return false;
        }
        k = k + 1;
    }
    assert(t@.subrange(i as int, i + p.len()) =~= p);
    true
}

pub open spec fn opt_int(r: Option<usize>) -> Option<int> {
    match r {
        Some(c) => Some(c as int),
        None => None,
    }
}

pub proof fn lemma_matches_split(t: Seq<u8>, i: int, e: int, a: Seq<u8>, b: Seq<u8>)
    requires
        0 <= i,
        e <= t.len(),
    ensures
        matches_at(t, i, e, a + b) == (matches_at(t, i, e, a) && matches_at(t, i + a.len(), e, b)),
{
    let ab = a + b;
    if matches_at(t, i, e, ab) {
        assert(t.subrange(i, i + a.len()) =~= ab.subrange(0, a.len() as int));
        assert(ab.subrange(0, a.len() as int) =~= a);
        assert(t.subrange(i + a.len(), i + a.len() + b.len()) =~= ab.subrange(
            a.len() as int,
            ab.len() as int,
        ));
        assert(ab.subrange(a.len() as int, ab.len() as int) =~= b);
    }
    if matches_at(t, i, e, a) && matches_at(t, i + a.len(), e, b) {
        assert(t.subrange(i, i + ab.len()) =~= ab);
    }
}

/// Position of the colon of `name:` written right after the indentation of the
/// line `[s, e)`.
pub fn plain_key_colon_at(t: &[u8], s: usize, e: usize, name: &[u8]) -> (r: Option<usize>)
    requires
        s <= e <= t@.len(),
    ensures
        opt_int(r) == plain_key_colon(t@, s as int, e as int, name@),
{
    let i = skip_space_at(t, s, e);
    let colon_byte: [u8; 1] = [58u8];
    let col: &[u8] = &colon_byte;
    assert(col@ =~= colon());
    if matches_pair_at(t, i, e, name, col) {
        Some(i + name.len())
    } else {
        None
    }
}

/// As `plain_key_colon_at`, also accepting `- name:` on a list-item line.
pub fn item_key_colon_at(t: &[u8], s: usize, e: usize, name: &[u8]) -> (r: Option<usize>)
    requires
        s <= e <= t@.len(),
    ensures
        opt_int(r) == item_key_colon(t@, s as int, e as int, name@),
{
    let i = skip_space_at(t, s, e);
    let colon_byte: [u8; 1] = [58u8];
    let col: &[u8] = &colon_byte;
    assert(col@ =~= colon());
    if matches_pair_at(t, i, e, name, col) {
        return Some(i + name.len());
    }
    proof {
        lemma_matches_split(t@, i as int, e as int, dash_space(), name@ + colon());
        assert(dash_space() + name@ + colon() =~= dash_space() + (name@ + colon()));
    }
    if e - i >= 2 && t[i] == 45u8 && t[i + 1] == 32u8 {
        assert(t@.subrange(i as int, i + 2) =~= dash_space());
        if matches_pair_at(t, i + 2, e, name, col) {
            return Some(i + 2 + name.len());
        }
    } else {
        assert(!matches_at(t@, i as int, e as int, dash_space())) by {
            if matches_at(t@, i as int, e as int, dash_space()) {
                assert(t@.subrange(i as int, i + 2)[0] == t@[i as int]);
                assert(t@.subrange(i as int, i + 2)[1] == t@[i + 1]);
            }
        }
    }
    None
}

pub fn is_content_at(t: &[u8], s: usize, e: usize) -> (r: bool)
    requires
        s <= e <= t@.len(),
    ensures
        r == is_content(t@, s as int, e as int),
{
    let i = skip_space_at(t, s, e);
    i < e && t[i] != 35u8
}

// ---------------------------------------------------------------------------
// Top-level fields
/// Colon of the first line, from the line starting at `s` on, that begins with `name:`.
pub open spec fn field_span_from(t: Seq<u8>, name: Seq<u8>, s: int) -> Option<int>
    decreases t.len() + 1 - s,
    via field_span_from_decreases
{
    if s < 0 || s >= t.len() {
        None
    } else {
        let e = line_end(t, s);
        match plain_key_colon(t, s, e, name) {
            Some(c) => Some(c),
            None => {
                field_span_from(t, name, e + 1)
            },
        }
    }
}

#[via_fn]
proof fn field_span_from_decreases(t: Seq<u8>, name: Seq<u8>, s: int) {
    if 0 <= s <= t.len() {
        lemma_line_end(t, s);
    }
}

/// Colon of the first line of `t` that begins with `name:`.
pub open spec fn field_span(t: Seq<u8>, name: Seq<u8>) -> Option<int> {
    field_span_from(t, name, 0)
}

pub fn find_field_span(t: &[u8], name: &[u8]) -> (r: Option<usize>)
    ensures
        opt_int(r) == field_span(t@, name@),
{
    let mut s: usize = 0;
    while s < t.len()
        invariant
            s <= t@.len(),
            field_span(t@, name@) == field_span_from(t@, name@, s as int),
        decreases t@.len() - s,
    {
        let e = line_end_at(t, s);
        let k = plain_key_colon_at(t, s, e, name);
        assert(k is None ==> field_span_from(t@, name@, s as int) == field_span_from(t@, name@, e + 1));
        if k.is_some() {
            assert(field_span_from(t@, name@, s as int) == opt_int(k));
            return k;
        }
        if e >= t.len() {
            return None;
        }
        s = e + 1;
    }
    None
}

// ---------------------------------------------------------------------------
// Dotted paths
/// Walks `path` from component `k` on, from the line starting at `s`: each
/// component must begin a later content line than the one before; the result is
/// the colon of the last component.
pub open spec fn nested_from(t: Seq<u8>, path: Seq<Seq<u8>>, k: int, s: int) -> Option<int>
    decreases t.len() + 1 - s,
    via nested_from_decreases
{
    if s < 0 || s >= t.len() || k < 0 || k >= path.len() {
        None
    } else {
        let e = line_end(t, s);
        let hit = plain_key_colon(t, s, e, path[k]);
        if is_content(t, s, e) && hit is Some {
            if k == path.len() - 1 {
                hit
            } else {
                nested_from(t, path, k + 1, e + 1)
            }
        } else {
            nested_from(t, path, k, e + 1)
        }
    }
}

#[via_fn]
proof fn nested_from_decreases(t: Seq<u8>, path: Seq<Seq<u8>>, k: int, s: int) {
    if 0 <= s <= t.len() {
        lemma_line_end(t, s);
    }
}

pub open spec fn nested_span(t: Seq<u8>, path: Seq<Seq<u8>>) -> Option<int> {
    nested_from(t, path, 0, 0)
}

/// The byte views of the components of a path.
pub open spec fn path_view(path: Seq<Vec<u8>>) -> Seq<Seq<u8>> {
    path.map_values(|c: Vec<u8>| c@)
}

pub fn find_nested_field_span(t: &[u8], path: &Vec<Vec<u8>>) -> (r: Option<usize>)
    ensures
        opt_int(r) == nested_span(t@, path_view(path@)),
{
    let ghost p = path_view(path@);
    let mut s: usize = 0;
    let mut k: usize = 0;
    if path.len() == 0 {
        return None;
    }
    while s < t.len()
        invariant
            s <= t@.len(),
            k < path@.len(),
            p == path_view(path@),
            nested_span(t@, p) == nested_from(t@, p, k as int, s as int),
        decreases t@.len() - s,
    {
        let e = line_end_at(t, s);
        let comp: &[u8] = path[k].as_slice();
        assert(comp@ == p[k as int]);
        let hit = plain_key_colon_at(t, s, e, comp);
        let content = is_content_at(t, s, e);
        if content && hit.is_some() {
            if k == path.len() - 1 {
                assert(nested_from(t@, p, k as int, s as int) == opt_int(hit));
                return hit;
            }
            assert(nested_from(t@, p, k as int, s as int) == nested_from(t@, p, k + 1, e + 1));
            k = k + 1;
        } else {
            assert(nested_from(t@, p, k as int, s as int) == nested_from(t@, p, k as int, e + 1));
        }
        if e >= t.len() {
            return None;
        }
        s = e + 1;
    }
    None
}

// ---------------------------------------------------------------------------
// Items of the `steps:` list
pub open spec fn steps_key() -> Seq<u8> {
    seq![115u8, 116u8, 101u8, 112u8, 115u8, 58u8]
}

/// The first line that begins with `steps:`: the start of the line after it and
/// the width of its indentation.
pub open spec fn steps_header_from(t: Seq<u8>, s: int) -> Option<(int, int)>
    decreases t.len() + 1 - s,
    via steps_header_from_decreases
{
    if s < 0 || s >= t.len() {
        None
    } else {
        let e = line_end(t, s);
        let i = skip_space(t, s, e);
        if matches_at(t, i, e, steps_key()) {
            Some((e + 1, i - s))
        } else {
            steps_header_from(t, e + 1)
        }
    }
}

#[via_fn]
proof fn steps_header_from_decreases(t: Seq<u8>, s: int) {
    if 0 <= s <= t.len() {
        lemma_line_end(t, s);
    }
}

/// Width of the indentation of the line `[s, e)`.
pub open spec fn line_indent(t: Seq<u8>, s: int, e: int) -> int {
    skip_space(t, s, e) - s
}

/// The text of the line `[s, e)` starts with `-`.
pub open spec fn is_dash_line(t: Seq<u8>, s: int, e: int) -> bool {
    let i = skip_space(t, s, e);
    i < e && t[i] == 45u8
}

/// Before the first item: a content line, not a dash line, indented no further
/// than `steps:` ends the block (so the list is empty).
pub open spec fn ends_header(t: Seq<u8>, s: int, e: int, indent: int) -> bool {
    is_content(t, s, e) && !is_dash_line(t, s, e) && line_indent(t, s, e) <= indent
}

/// Start of the line of the first list item after `steps:`: the first dash line,
/// from `s` on, indented at least as far as `steps:`.
pub open spec fn first_item(t: Seq<u8>, indent: int, s: int) -> Option<int>
    decreases t.len() + 1 - s,
    via first_item_decreases
{
    if s < 0 || s >= t.len() {
        None
    } else {
        let e = line_end(t, s);
        if ends_header(t, s, e, indent) {
            None
        } else if is_dash_line(t, s, e) && line_indent(t, s, e) >= indent {
            Some(s)
        } else {
            first_item(t, indent, e + 1)
        }
    }
}

#[via_fn]
proof fn first_item_decreases(t: Seq<u8>, indent: int, s: int) {
    if 0 <= s <= t.len() {
        lemma_line_end(t, s);
    }
}

/// An item of the list: a dash line at exactly the items' indentation `ii`
/// (dash lines further in belong to the item above, e.g. a nested list or a
/// block of command text).
pub open spec fn is_item(t: Seq<u8>, s: int, e: int, ii: int) -> bool {
    is_dash_line(t, s, e) && line_indent(t, s, e) == ii
}

/// A content line that ends the list: indented less than the items, or at
/// their indentation without a dash.
pub open spec fn ends_list(t: Seq<u8>, s: int, e: int, ii: int) -> bool {
    is_content(t, s, e) && (line_indent(t, s, e) < ii || (line_indent(t, s, e) == ii && !is_dash_line(
        t,
        s,
        e,
    )))
}

/// Start of the line of the `n`-th item, counting from the line at `s`.
pub open spec fn nth_item(t: Seq<u8>, ii: int, s: int, n: nat) -> Option<int>
    decreases t.len() + 1 - s,
    via nth_item_decreases
{
    if s < 0 || s >= t.len() {
        None
    } else {
        let e = line_end(t, s);
        if ends_list(t, s, e, ii) {
            None
        } else if is_item(t, s, e, ii) {
            if n == 0 {
                Some(s)
            } else {
                nth_item(t, ii, e + 1, (n - 1) as nat)
            }
        } else {
            nth_item(t, ii, e + 1, n)
        }
    }
}

#[via_fn]
proof fn nth_item_decreases(t: Seq<u8>, ii: int, s: int, n: nat) {
    if 0 <= s <= t.len() {
        lemma_line_end(t, s);
    }
}

/// Start of the first line, from `s` on, that begins the next item or ends the
/// list; the end of the text if there is none.
pub open spec fn region_end(t: Seq<u8>, ii: int, s: int) -> int
    decreases t.len() + 1 - s,
    via region_end_decreases
{
    if s < 0 || s >= t.len() {
        t.len() as int
    } else {
        let e = line_end(t, s);
        if ends_list(t, s, e, ii) || is_item(t, s, e, ii) {
            s
        } else {
            region_end(t, ii, e + 1)
        }
    }
}

#[via_fn]
proof fn region_end_decreases(t: Seq<u8>, ii: int, s: int) {
    if 0 <= s <= t.len() {
        lemma_line_end(t, s);
    }
}

/// Colon of the first line in `[s, stop)` that holds `name:` or `- name:`.
pub open spec fn item_key_in(t: Seq<u8>, name: Seq<u8>, s: int, stop: int) -> Option<int>
    decreases t.len() + 1 - s,
    via item_key_in_decreases
{
    if s < 0 || s >= stop || s >= t.len() {
        None
    } else {
        let e = line_end(t, s);
        match item_key_colon(t, s, e, name) {
            Some(c) => Some(c),
            None => {
                item_key_in(t, name, e + 1, stop)
            },
        }
    }
}

#[via_fn]
proof fn item_key_in_decreases(t: Seq<u8>, name: Seq<u8>, s: int, stop: int) {
    if 0 <= s <= t.len() {
        lemma_line_end(t, s);
    }
}

/// The lines `[start, stop)` of step `index` of the `steps:` list: from the
/// line of its item marker to the next item at the same indentation, or to the
/// end of the list.
pub open spec fn step_region(t: Seq<u8>, index: nat) -> Option<(int, int)> {
    match steps_header_from(t, 0) {
        None => None,
        Some(h) => match first_item(t, h.1, h.0) {
            None => None,
            Some(f) => {
                let ii = line_indent(t, f, line_end(t, f));
                match nth_item(t, ii, f, index) {
                    None => None,
                    Some(m) => Some((m, region_end(t, ii, line_end(t, m) + 1))),
                }
            },
        },
    }
}

/// Colon of `name` on the first line of step `index` that holds `name:` or
/// `- name:`.
pub open spec fn step_field_span(t: Seq<u8>, index: nat, name: Seq<u8>) -> Option<int> {
    match step_region(t, index) {
        None => None,
        Some(r) => item_key_in(t, name, r.0, r.1),
    }
}

/// A colon that `item_key_in` finds lies on a line that starts in `[s, stop)`,
/// right after `name`.
pub proof fn lemma_item_key_in_line(t: Seq<u8>, name: Seq<u8>, s: int, stop: int)
    requires
        0 <= s,
    ensures
        item_key_in(t, name, s, stop) matches Some(c) ==> exists|l: int|
            s <= l < stop && l < t.len() && #[trigger] line_end(t, l) > c && l <= c - name.len()
                && t.subrange(c - name.len(), c + 1) == name + colon(),
    decreases t.len() + 1 - s,
{
    if s < stop && s < t.len() {
        let e = line_end(t, s);
        lemma_line_end(t, s);
        match item_key_colon(t, s, e, name) {
            Some(c) => {
                let i = skip_space(t, s, e);
                lemma_skip_space(t, s, e);
                if matches_at(t, i, e, name + colon()) {
                    assert(c == i + name.len());
                    assert(line_end(t, s) > c);
                } else {
                    lemma_matches_split(t, i, e, dash_space(), name + colon());
                    assert(dash_space() + name + colon() =~= dash_space() + (name + colon()));
                    assert(c == i + 2 + name.len());
                    assert(line_end(t, s) > c);
                }
            },
            None => {
                lemma_item_key_in_line(t, name, e + 1, stop);
                let c = item_key_in(t, name, s, stop);
                if c is Some {
                    let l = choose|l: int|
                        e + 1 <= l < stop && l < t.len() && #[trigger] line_end(t, l) > c->0 && l <= c->0 - name.len()
                            && t.subrange(c->0 - name.len(), c->0 + 1) == name + colon();
                    assert(s <= l);
                }
            },
        }
    }
}

pub proof fn lemma_skip_space(t: Seq<u8>, i: int, e: int)
    requires
        i <= e,
    ensures
        i <= skip_space(t, i, e) <= e,
    decreases e - i,
{
    if i < e && ws_len(t, i, e) > 0 {
        lemma_skip_space(t, i + ws_len(t, i, e), e);
    }
}

fn steps_header(t: &[u8]) -> (r: Option<(usize, usize)>)
    ensures
        match r {
            Some(h) => steps_header_from(t@, 0) == Some((h.0 + 1, h.1 as int)) && h.0 <= t@.len(),
            None => steps_header_from(t@, 0) is None,
        },
{
    let key: [u8; 6] = [115u8, 116u8, 101u8, 112u8, 115u8, 58u8];
    let ks: &[u8] = &key;
    let empty: [u8; 0] = [];
    let es: &[u8] = &empty;
    assert(ks@ + es@ =~= steps_key());
    let mut s: usize = 0;
    while s < t.len()
        invariant
            s <= t@.len(),
            ks@ + es@ == steps_key(),
            steps_header_from(t@, 0) == steps_header_from(t@, s as int),
        decreases t@.len() - s,
    {
        let e = line_end_at(t, s);
        let i = skip_space_at(t, s, e);
        if matches_pair_at(t, i, e, ks, es) {
            assert(steps_header_from(t@, s as int) == Some((e + 1, i - s)));
            return Some((e, i - s));
        }
        assert(steps_header_from(t@, s as int) == steps_header_from(t@, e + 1));
        if e >= t.len() {
            return None;
        }
        s = e + 1;
    }
    None
}

fn line_indent_at(t: &[u8], s: usize, e: usize) -> (r: usize)
    requires
        s <= e <= t@.len(),
    ensures
        r == line_indent(t@, s as int, e as int),
{
    let i = skip_space_at(t, s, e);
    i - s
}

fn is_dash_line_at(t: &[u8], s: usize, e: usize) -> (r: bool)
    requires
        s <= e <= t@.len(),
    ensures
        r == is_dash_line(t@, s as int, e as int),
{
    let i = skip_space_at(t, s, e);
    i < e && t[i] == 45u8
}

fn is_item_at(t: &[u8], s: usize, e: usize, ii: usize) -> (r: bool)
    requires
        s <= e <= t@.len(),
    ensures
        r == is_item(t@, s as int, e as int, ii as int),
{
    is_dash_line_at(t, s, e) && line_indent_at(t, s, e) == ii
}

fn ends_list_at(t: &[u8], s: usize, e: usize, ii: usize) -> (r: bool)
    requires
        s <= e <= t@.len(),
    ensures
        r == ends_list(t@, s as int, e as int, ii as int),
{
    let w = line_indent_at(t, s, e);
    is_content_at(t, s, e) && (w < ii || (w == ii && !is_dash_line_at(t, s, e)))
}

/// Bounds `[start, stop)` of the lines of step `index`.
pub fn find_step_region(t: &[u8], index: usize) -> (r: Option<(usize, usize)>)
    ensures
        match r {
            Some((a, b)) => step_region(t@, index as nat) == Some((a as int, b as int)) && a < b <= t@.len(),
            None => step_region(t@, index as nat) is None,
        },
{
    let (header_end, indent) = match steps_header(t) {
        Some(h) => h,
        None => return None,
    };
    let ghost start = header_end + 1;
    if header_end >= t.len() {
        return None;
    }
    // The first item fixes the items' indentation.
    let mut s: usize = header_end + 1;
    let mut first: Option<usize> = None;
    while s < t.len() && first.is_none()
        invariant
            s <= t@.len(),
            start == header_end + 1,
            steps_header_from(t@, 0) == Some((start, indent as int)),
            first is None ==> first_item(t@, indent as int, start) == first_item(t@, indent as int, s as int),
            first matches Some(f) ==> f < t@.len() && first_item(t@, indent as int, start) == Some(f as int),
        decreases t@.len() - s, (if first is None { 1int } else { 0int }),
    {
        let e = line_end_at(t, s);
        let content = is_content_at(t, s, e);
        let dash = is_dash_line_at(t, s, e);
        let w = line_indent_at(t, s, e);
        if content && !dash && w <= indent {
            assert(first_item(t@, indent as int, s as int) is None);
            return None;
        }
        if dash && w >= indent {
            assert(first_item(t@, indent as int, s as int) == Some(s as int));
            first = Some(s);
        } else {
            assert(first_item(t@, indent as int, s as int) == first_item(t@, indent as int, e + 1));
            if e >= t.len() {
                return None;
            }
            s = e + 1;
        }
    }
    let f = match first {
        Some(f) => f,
        None => {
            assert(first_item(t@, indent as int, s as int) is None);
            return None;
        },
    };
    let fe = line_end_at(t, f);
    let ii = line_indent_at(t, f, fe);
    // Count items at that indentation.
    let mut s: usize = f;
    let mut n: usize = index;
    let mut marker: Option<usize> = None;
    while s < t.len() && marker.is_none()
        invariant
            f <= s <= t@.len(),
            n <= index,
            step_region(t@, index as nat) == match nth_item(t@, ii as int, f as int, index as nat) {
                None => None,
                Some(m) => Some((m, region_end(t@, ii as int, line_end(t@, m) + 1))),
            },
            marker is None ==> nth_item(t@, ii as int, f as int, index as nat) == nth_item(
                t@,
                ii as int,
                s as int,
                n as nat,
            ),
            marker matches Some(m) ==> m < t@.len() && nth_item(t@, ii as int, f as int, index as nat)
                == Some(m as int),
        decreases t@.len() - s, (if marker is None { 1int } else { 0int }),
    {
        let e = line_end_at(t, s);
        if ends_list_at(t, s, e, ii) {
            assert(nth_item(t@, ii as int, s as int, n as nat) is None);
            return None;
        }
        if is_item_at(t, s, e, ii) && n == 0 {
            assert(nth_item(t@, ii as int, s as int, n as nat) == Some(s as int));
            marker = Some(s);
        } else {
            if is_item_at(t, s, e, ii) {
                assert(nth_item(t@, ii as int, s as int, n as nat) == nth_item(
                    t@,
                    ii as int,
                    e + 1,
                    (n - 1) as nat,
                ));
                n = n - 1;
            } else {
                assert(nth_item(t@, ii as int, s as int, n as nat) == nth_item(t@, ii as int, e + 1, n as nat));
            }
            if e >= t.len() {
                return None;
            }
            s = e + 1;
        }
    }
    let marker = match marker {
        Some(m) => m,
        None => {
            assert(nth_item(t@, ii as int, s as int, n as nat) is None);
            return None;
        },
    };
    // The step's lines run to the next item or the end of the list.
    let me = line_end_at(t, marker);
    let stop: usize = if me >= t.len() {
        t.len()
    } else {
        let mut q: usize = me + 1;
        let mut done = false;
        while q < t.len() && !done
            invariant
                me < q <= t@.len(),
                done ==> region_end(t@, ii as int, me + 1) == q as int,
                !done ==> region_end(t@, ii as int, me + 1) == region_end(t@, ii as int, q as int),
            decreases t@.len() - q, (if done { 0int } else { 1int }),
        {
            let e = line_end_at(t, q);
            if ends_list_at(t, q, e, ii) || is_item_at(t, q, e, ii) {
                done = true;
            } else {
                assert(region_end(t@, ii as int, q as int) == region_end(t@, ii as int, e + 1));
                if e >= t.len() {
                    q = t.len();
                    done = true;
                } else {
                    q = e + 1;
                }
            }
        }
        q
    };
    assert(region_end(t@, ii as int, me + 1) == stop as int);
    Some((marker, stop))
}

/// The colon of `name` in the lines of step `index`; such a colon lies on a
/// line of that step, right after `name`.
pub fn find_step_field_span(t: &[u8], index: usize, name: &[u8]) -> (r: Option<usize>)
    ensures
        opt_int(r) == step_field_span(t@, index as nat, name@),
        r matches Some(c) ==> step_region(t@, index as nat) matches Some(reg) && exists|l: int|
            reg.0 <= l < reg.1 && l < t@.len() && #[trigger] line_end(t@, l) > c && l <= c - name@.len()
                && t@.subrange(c - name@.len(), c + 1) == name@ + colon(),
{
    let (start, stop) = match find_step_region(t, index) {
        Some(r) => r,
        None => return None,
    };
    let mut s: usize = start;
    while s < stop
        invariant
            start <= s <= stop <= t@.len(),
            step_region(t@, index as nat) == Some((start as int, stop as int)),
            step_field_span(t@, index as nat, name@) == item_key_in(t@, name@, start as int, stop as int),
            item_key_in(t@, name@, start as int, stop as int) == item_key_in(t@, name@, s as int, stop as int),
        decreases stop - s,
    {
        let e = line_end_at(t, s);
        let k = item_key_colon_at(t, s, e, name);
        if k.is_some() {
            assert(item_key_in(t@, name@, s as int, stop as int) == opt_int(k));
            proof {
                lemma_item_key_in_line(t@, name@, start as int, stop as int);
            }
            return k;
        }
        assert(item_key_in(t@, name@, s as int, stop as int) == item_key_in(t@, name@, e + 1, stop as int));
        if e >= stop {
            return None;
        }
        s = e + 1;
    }
    None
}

} // verus!
