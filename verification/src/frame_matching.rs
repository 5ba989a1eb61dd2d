//! Frames of two sensors, paired by their times, and the files that they are kept in.

use vstd::prelude::*;
use vstd::string::{StrSliceExecFns, StringExecFns};

use crate::float::{Float64, F64_HALF};
use crate::numerics::{computes, Arithmetic, Numerics};
use crate::sorting::{positions, sort_positions, stable_order, stable_order_is_sorted};
use crate::text::{
    chars_of, decimal, decimal_gives_the_number_back, decimal_text, is_digit,
    parse_u32, parse_u32_spec, starts_with_spec,
};
use crate::types::PointXYZIT;

verus! {

// ---------------------------------------------------------------------------
// File names
// ---------------------------------------------------------------------------

/// A path without the slashes, and the single dots behind slashes, at its end.
pub open spec fn trimmed(path: Seq<char>) -> Seq<char>
    decreases path.len(),
{
    if path.len() > 0 && path.last() == '/' {
        trimmed(path.drop_last())
    } else if path.len() >= 2 && path.last() == '.' && path[path.len() - 2] == '/' {
        trimmed(path.drop_last())
    } else {
        path
    }
}

/// Where `c` is last among the first `k` characters; -1 where it is nowhere.
pub open spec fn last_index(s: Seq<char>, c: char, k: int) -> int
    decreases k,
{
    if k <= 0 {
        -1
    } else if s[k - 1] == c {
        k - 1
    } else {
        last_index(s, c, k - 1)
    }
}

/// The last component of a path.
pub open spec fn last_component(path: Seq<char>) -> Seq<char> {
    let s = trimmed(path);
    s.skip(last_index(s, '/', s.len() as int) + 1)
}

/// Whether a component names a file: it is not empty and stands for no directory.
pub open spec fn names_a_file(name: Seq<char>) -> bool {
    name.len() > 0 && name != seq!['.'] && name != seq!['.', '.']
}

/// The name of a file without its extension, where the path names a file. A dot at the
/// start of a name begins no extension.
pub open spec fn file_stem_spec(path: Seq<char>) -> Option<Seq<char>> {
    let name = last_component(path);
    let dot = last_index(name, '.', name.len() as int);
    if !names_a_file(name) {
        None
    } else if dot <= 0 {
        Some(name)
    } else {
        Some(name.take(dot))
    }
}

/// Why a path is not that of a numbered cloud.
#[derive(Clone, Copy, Debug, PartialEq, Eq, Structural)]
pub enum CloudNumberError {
    /// It names no file.
    InvalidFilename,
    /// The name does not begin with `cloud_`.
    MissingPrefix,
    /// What follows is not a number.
    InvalidNumber,
}

/// The number in the name of a cloud's file.
pub open spec fn cloud_number(path: Seq<char>) -> Result<u32, CloudNumberError> {
    match file_stem_spec(path) {
        None => Err(CloudNumberError::InvalidFilename),
        Some(stem) => {
            if !starts_with_spec(stem, "cloud_"@) {
                Err(CloudNumberError::MissingPrefix)
            } else {
                match parse_u32_spec(stem.skip("cloud_"@.len() as int)) {
                    None => Err(CloudNumberError::InvalidNumber),
                    Some(number) => Ok(number),
                }
            }
        },
    }
}

fn find_last(s: &Vec<char>, c: char, start: usize, end: usize) -> (r: Option<usize>)
    requires
        start <= end <= s.len(),
    ensures
        match r {
            None => last_index(s@.subrange(start as int, end as int), c, end - start) == -1,
            Some(i) => start <= i < end && last_index(
                s@.subrange(start as int, end as int),
                c,
                end - start,
            ) == i - start,
        },
{
    let ghost part = s@.subrange(start as int, end as int);
    let mut k: usize = end;
    while k > start
        invariant
            start <= k <= end <= s.len(),
            part == s@.subrange(start as int, end as int),
            last_index(part, c, end - start) == last_index(part, c, k - start),
        decreases k,
    {
        assert(part[k - start - 1] == s[k - 1]);
        if s[k - 1] == c {
            return Some(k - 1);
        }
        k -= 1;
    }
    None
}

fn trimmed_len(path: &Vec<char>) -> (r: usize)
    ensures
        r <= path.len(),
        path@.take(r as int) == trimmed(path@),
{
    let mut len: usize = path.len();
    assert(path@.take(len as int) =~= path@);
    while len > 0 && (path[len - 1] == '/' || (len >= 2 && path[len - 1] == '.' && path[len - 2]
        == '/'))
        invariant
            len <= path.len(),
            trimmed(path@.take(len as int)) == trimmed(path@),
        decreases len,
    {
        assert(path@.take(len as int).drop_last() =~= path@.take(len - 1));
        len -= 1;
    }
    len
}

/// Where the last component of a path begins and ends.
fn component_range(chars: &Vec<char>) -> (r: (usize, usize))
    ensures
        r.0 <= r.1 <= chars.len(),
        chars@.subrange(r.0 as int, r.1 as int) == last_component(chars@),
{
    let len: usize = trimmed_len(chars);
    let start: usize = match find_last(chars, '/', 0, len) {
        None => 0,
        Some(i) => i + 1,
    };
    proof {
        assert(chars@.subrange(0, len as int) =~= trimmed(chars@));
        assert(last_component(chars@) =~= chars@.subrange(start as int, len as int));
    }
    (start, len)
}

fn is_file_name(chars: &Vec<char>, start: usize, end: usize) -> (r: bool)
    requires
        start <= end <= chars.len(),
    ensures
        r == names_a_file(chars@.subrange(start as int, end as int)),
{
    let ghost name = chars@.subrange(start as int, end as int);
    let count: usize = end - start;
    if count == 0 {
        return false;
    }
    if count == 1 {
        assert(name =~= seq!['.'] <==> name[0] == '.');
        return chars[start] != '.';
    }
    if count == 2 {
        assert(name =~= seq!['.', '.'] <==> name[0] == '.' && name[1] == '.');
        return !(chars[start] == '.' && chars[start + 1] == '.');
    }
    true
}

/// Where the stem of a path's file begins and ends.
fn stem_range(chars: &Vec<char>) -> (r: Option<(usize, usize)>)
    ensures
        match r {
            None => file_stem_spec(chars@) is None,
            Some((start, end)) => start <= end <= chars.len() && file_stem_spec(chars@) == Some(
                chars@.subrange(start as int, end as int),
            ),
        },
{
    let (start, len) = component_range(chars);
    let ghost name = last_component(chars@);
    if !is_file_name(chars, start, len) {
        return None;
    }
    match find_last(chars, '.', start, len) {
        None => Some((start, len)),
        Some(i) => {
            if i == start {
                Some((start, len))
            } else {
                assert(name.take(i - start) =~= chars@.subrange(start as int, i as int));
                Some((start, i))
            }
        },
    }
}

fn has_prefix(chars: &Vec<char>, start: usize, end: usize, prefix: &Vec<char>) -> (r: bool)
    requires
        start <= end <= chars.len(),
    ensures
        r == starts_with_spec(chars@.subrange(start as int, end as int), prefix@),
{
    let ghost stem = chars@.subrange(start as int, end as int);
    if end - start < prefix.len() {
        return false;
    }
    let mut i: usize = 0;
    while i < prefix.len()
        invariant
            i <= prefix.len(),
            start <= end <= chars.len(),
            prefix.len() <= end - start,
            stem == chars@.subrange(start as int, end as int),
            forall|j: int| 0 <= j < i ==> #[trigger] stem[j] == prefix[j],
        decreases prefix.len() - i,
    {
        if chars[start + i] != prefix[i] {
            assert(stem[i as int] != prefix[i as int]);
            assert(stem.take(prefix.len() as int)[i as int] == stem[i as int]);
            return false;
        }
        i += 1;
    }
    assert(stem.take(prefix.len() as int) =~= prefix@);
    true
}

/// The number in the name of a cloud's file, `cloud_<number>` and an extension.
pub fn parse_cloud_number(path: &str) -> (r: Result<u32, CloudNumberError>)
    ensures
        r == cloud_number(path@),
{
    let chars = chars_of(path);
    let (start, end) = match stem_range(&chars) {
        None => {
            return Err(CloudNumberError::InvalidFilename);
        },
        Some(range) => range,
    };
    let prefix = chars_of("cloud_");
    if !has_prefix(&chars, start, end, &prefix) {
        return Err(CloudNumberError::MissingPrefix);
    }
    let first: usize = start + prefix.len();
    proof {
        let stem = chars@.subrange(start as int, end as int);
        assert(stem.skip(prefix.len() as int) =~= chars@.subrange(first as int, end as int));
    }
    match parse_u32(&chars, first, end) {
        None => Err(CloudNumberError::InvalidNumber),
        Some(number) => Ok(number),
    }
}

/// The name of the file of cloud `number`.
pub open spec fn cloud_filename(number: u32) -> Seq<char> {
    "cloud_"@ + decimal(number as nat) + ".pcd"@
}

pub fn output_filename(airy_source_number: u32) -> (r: String)
    ensures
        r@ == cloud_filename(airy_source_number),
{
    let mut r = String::new();
    r.append("cloud_");
    r.append(decimal_text(airy_source_number).as_str());
    r.append(".pcd");
    assert(r@ =~= cloud_filename(airy_source_number));
    r
}

proof fn lemma_last_index_absent(s: Seq<char>, c: char, k: int)
    requires
        0 <= k <= s.len(),
        forall|i: int| 0 <= i < k ==> #[trigger] s[i] != c,
    ensures
        last_index(s, c, k) == -1,
    decreases k,
{
    if k > 0 {
        lemma_last_index_absent(s, c, k - 1);
    }
}

proof fn lemma_last_index_at(s: Seq<char>, c: char, k: int, at: int)
    requires
        0 <= at < k <= s.len(),
        s[at] == c,
        forall|i: int| at < i < k ==> #[trigger] s[i] != c,
    ensures
        last_index(s, c, k) == at,
    decreases k,
{
    if k - 1 > at {
        lemma_last_index_at(s, c, k - 1, at);
    }
}

/// The number of a file's name is the one that the name was made of.
pub proof fn cloud_number_gives_the_number_back(number: u32)
    ensures
        cloud_number(cloud_filename(number)) == Ok::<u32, CloudNumberError>(number),
{
    reveal_strlit("cloud_");
    reveal_strlit(".pcd");
    let digits = decimal(number as nat);
    decimal_gives_the_number_back(number as nat);
    let name = cloud_filename(number);
    let prefix = "cloud_"@;
    let len = name.len() as int;
    let dot = prefix.len() + digits.len() as int;
    assert(name[len - 1] == 'd');
    assert(trimmed(name) == name);
    assert forall|i: int| 0 <= i < len implies #[trigger] name[i] != '/' by {
        if prefix.len() <= i < dot {
            assert(name[i] == digits[i - prefix.len()]);
            assert(is_digit(digits[i - prefix.len()]));
        }
    }
    lemma_last_index_absent(name, '/', len);
    assert(name.skip(0) =~= name);
    assert(name[0] == 'c');
    assert(names_a_file(name)) by {
        assert(seq!['.'][0] == '.');
        assert(seq!['.', '.'][0] == '.');
    }
    assert(name[dot] == '.');
    lemma_last_index_at(name, '.', len, dot);
    let stem = name.take(dot);
    assert(stem =~= prefix + digits);
    assert(stem.take(prefix.len() as int) =~= prefix);
    assert(stem.skip(prefix.len() as int) =~= digits);
}

// ---------------------------------------------------------------------------
// The time of a frame
// ---------------------------------------------------------------------------

/// The earliest and the latest finite time of the first `k` points.
pub open spec fn finite_times_upto(points: Seq<PointXYZIT>, k: int) -> (Float64, Float64)
    decreases k,
{
    if k <= 0 {
        (Float64::infinity_spec(), Float64::infinity_spec().neg_spec())
    } else {
        let (first, last) = finite_times_upto(points, k - 1);
        let time = points[k - 1].timestamp;
        if time.is_finite_spec() {
            (first.min_spec(time), last.max_spec(time))
        } else {
            (first, last)
        }
    }
}

/// The middle of `first` and `last`.
pub open spec fn middle(g: Arithmetic, first: Float64, last: Float64) -> Float64 {
    (g.sum64)(
        first,
        (g.product64)((g.difference64)(last, first), Float64 { bits: F64_HALF }),
    )
}

/// Whether a point has a finite time.
pub open spec fn has_finite_time(points: Seq<PointXYZIT>) -> bool {
    exists|i: int| 0 <= i < points.len() && (#[trigger] points[i]).timestamp.is_finite_spec()
}

proof fn lemma_finite_times(points: Seq<PointXYZIT>, k: int)
    requires
        0 <= k <= points.len(),
    ensures
        ({
            let (first, last) = finite_times_upto(points, k);
            let some = exists|i: int|
                0 <= i < k && (#[trigger] points[i]).timestamp.is_finite_spec();
            &&& some ==> first.is_finite_spec() && last.is_finite_spec()
            &&& !some ==> first == Float64::infinity_spec() && last
                == Float64::infinity_spec().neg_spec()
        }),
    decreases k,
{
    if k > 0 {
        lemma_finite_times(points, k - 1);
        if points[k - 1].timestamp.is_finite_spec() {
            assert(points[k - 1].timestamp.is_finite_spec());
        }
    }
}

/// The middle of the finite times of a frame. There is none where no time is finite.
pub fn representative_timestamp<N: Numerics>(n: &N, points: &[PointXYZIT]) -> (r: Option<Float64>)
    ensures
        r is Some <==> has_finite_time(points@),
        forall|g: Arithmetic| #[trigger]
            computes(*n, g) ==> (r matches Some(time) ==> {
                let (first, last) = finite_times_upto(points@, points.len() as int);
                time == middle(g, first, last)
            }),
{
    let mut first = Float64::infinity();
    let mut last = Float64::infinity().neg();
    let mut k: usize = 0;
    while k < points.len()
        invariant
            k <= points.len(),
            (first, last) == finite_times_upto(points@, k as int),
        decreases points.len() - k,
    {
        let time = points[k].timestamp;
        if time.is_finite() {
            first = first.min(time);
            last = last.max(time);
        }
        k += 1;
    }
    proof {
        lemma_finite_times(points@, points.len() as int);
    }
    if !first.is_finite() || !last.is_finite() {
        return None;
    }
    Some(
        n.sum64(
            first,
            n.product64(n.difference64(last, first), Float64 { bits: F64_HALF }),
        ),
    )
}

// ---------------------------------------------------------------------------
// Pairs
// ---------------------------------------------------------------------------

/// A frame of one sensor: its file, the number of the file, and its time.
#[derive(Debug)]
pub struct FrameMetadata {
    pub source_path: String,
    pub source_number: u32,
    pub timestamp: Float64,
}

/// Two frames that belong together.
#[derive(Clone, Copy, Debug, PartialEq, Eq, Structural)]
pub struct FramePair {
    pub airy_index: usize,
    pub mid70_index: usize,
    pub difference_seconds: Float64,
}

/// How much later frame `i` of the first sensor is than frame `j` of the second.
pub open spec fn lead(
    g: Arithmetic,
    airy: Seq<FrameMetadata>,
    mid70: Seq<FrameMetadata>,
    i: int,
    j: int,
) -> Float64 {
    (g.difference64)(airy[i].timestamp, mid70[j].timestamp)
}

/// Whether frame `i` and frame `j` are within the tolerance.
pub open spec fn in_tolerance(
    g: Arithmetic,
    airy: Seq<FrameMetadata>,
    mid70: Seq<FrameMetadata>,
    tolerance: Float64,
    i: int,
    j: int,
) -> bool {
    lead(g, airy, mid70, i, j).abs_spec().le_spec(tolerance)
}

/// The pairs among the frames from `i` and from `j` on: the first two frames belong
/// together where they are within the tolerance, and else the earlier one has no partner.
pub open spec fn pairs_from(
    g: Arithmetic,
    airy: Seq<FrameMetadata>,
    mid70: Seq<FrameMetadata>,
    tolerance: Float64,
    i: int,
    j: int,
) -> Seq<FramePair>
    decreases airy.len() - i + mid70.len() - j,
{
    if i < 0 || j < 0 || i >= airy.len() || j >= mid70.len() {
        Seq::empty()
    } else if in_tolerance(g, airy, mid70, tolerance, i, j) {
        seq![
            FramePair {
                airy_index: i as usize,
                mid70_index: j as usize,
                difference_seconds: lead(g, airy, mid70, i, j).abs_spec(),
            },
        ] + pairs_from(g, airy, mid70, tolerance, i + 1, j + 1)
    } else if lead(g, airy, mid70, i, j).lt_spec(Float64::zero_spec()) {
        pairs_from(g, airy, mid70, tolerance, i + 1, j)
    } else {
        pairs_from(g, airy, mid70, tolerance, i, j + 1)
    }
}

/// Pairs the frames of two sensors, both in the order of their times.
pub fn match_frames<N: Numerics>(
    n: &N,
    airy_frames: &[FrameMetadata],
    mid70_frames: &[FrameMetadata],
    tolerance_seconds: Float64,
) -> (r: Vec<FramePair>)
    ensures
        r.len() <= airy_frames.len(),
        r.len() <= mid70_frames.len(),
        forall|k: int|
            0 <= k < r.len() ==> (#[trigger] r[k]).airy_index < airy_frames.len()
                && r[k].mid70_index < mid70_frames.len(),
        forall|g: Arithmetic| #[trigger]
            computes(*n, g) ==> r@ == pairs_from(
                g,
                airy_frames@,
                mid70_frames@,
                tolerance_seconds,
                0,
                0,
            ),
{
    let mut r: Vec<FramePair> = Vec::new();
    let mut i: usize = 0;
    let mut j: usize = 0;
    proof {
        assert forall|g: Arithmetic| #[trigger] computes(*n, g) implies pairs_from(
            g,
            airy_frames@,
            mid70_frames@,
            tolerance_seconds,
            0,
            0,
        ) == r@ + pairs_from(g, airy_frames@, mid70_frames@, tolerance_seconds, 0, 0) by {
            let all = pairs_from(g, airy_frames@, mid70_frames@, tolerance_seconds, 0, 0);
            assert(all =~= r@ + all);
        }
    }
    while i < airy_frames.len() && j < mid70_frames.len()
        invariant
            i <= airy_frames.len(),
            j <= mid70_frames.len(),
            r.len() <= i,
            r.len() <= j,
            forall|k: int|
                0 <= k < r.len() ==> (#[trigger] r[k]).airy_index < airy_frames.len()
                    && r[k].mid70_index < mid70_frames.len(),
            forall|g: Arithmetic| #[trigger]
                computes(*n, g) ==> pairs_from(
                    g,
                    airy_frames@,
                    mid70_frames@,
                    tolerance_seconds,
                    0,
                    0,
                ) == r@ + pairs_from(
                    g,
                    airy_frames@,
                    mid70_frames@,
                    tolerance_seconds,
                    i as int,
                    j as int,
                ),
        decreases airy_frames.len() - i + mid70_frames.len() - j,
    {
        let difference = n.difference64(airy_frames[i].timestamp, mid70_frames[j].timestamp);
        if difference.abs().le(tolerance_seconds) {
            let pair = FramePair {
                airy_index: i,
                mid70_index: j,
                difference_seconds: difference.abs(),
            };
            let ghost before = r@;
            r.push(pair);
            proof {
                assert forall|g: Arithmetic| #[trigger] computes(*n, g) implies pairs_from(
                    g,
                    airy_frames@,
                    mid70_frames@,
                    tolerance_seconds,
                    0,
                    0,
                ) == r@ + pairs_from(
                    g,
                    airy_frames@,
                    mid70_frames@,
                    tolerance_seconds,
                    i + 1,
                    j + 1,
                ) by {
                    let rest = pairs_from(
                        g,
                        airy_frames@,
                        mid70_frames@,
                        tolerance_seconds,
                        i + 1,
                        j + 1,
                    );
                    assert(before + (seq![pair] + rest) =~= r@ + rest);
                }
            }
            i += 1;
            j += 1;
        } else if difference.lt(Float64::zero()) {
            i += 1;
        } else {
            j += 1;
        }
    }
    proof {
        assert forall|g: Arithmetic| #[trigger] computes(*n, g) implies r@ == pairs_from(
            g,
            airy_frames@,
            mid70_frames@,
            tolerance_seconds,
            0,
            0,
        ) by {
            assert(r@ + Seq::<FramePair>::empty() =~= r@);
        }
    }
    r
}

/// Whether the pairs are of frames from `i` and `j` on, within the tolerance, and in
/// increasing order on both sides, so that no frame is in two of them.
pub open spec fn is_matching(
    g: Arithmetic,
    airy: Seq<FrameMetadata>,
    mid70: Seq<FrameMetadata>,
    tolerance: Float64,
    i: int,
    j: int,
    pairs: Seq<FramePair>,
) -> bool {
    &&& forall|k: int|
        0 <= k < pairs.len() ==> {
            let pair = #[trigger] pairs[k];
            &&& i <= pair.airy_index < airy.len()
            &&& j <= pair.mid70_index < mid70.len()
            &&& in_tolerance(
                g,
                airy,
                mid70,
                tolerance,
                pair.airy_index as int,
                pair.mid70_index as int,
            )
        }
    &&& forall|k: int, l: int|
        0 <= k < l < pairs.len() ==> (#[trigger] pairs[k]).airy_index < (
        #[trigger] pairs[l]).airy_index && pairs[k].mid70_index < pairs[l].mid70_index
}

/// Whether the pairs are of frames from `i` and `j` on, within the tolerance, and no frame
/// is in two of them, whatever their order.
pub open spec fn is_one_to_one(
    g: Arithmetic,
    airy: Seq<FrameMetadata>,
    mid70: Seq<FrameMetadata>,
    tolerance: Float64,
    i: int,
    j: int,
    pairs: Seq<FramePair>,
) -> bool {
    &&& forall|k: int|
        0 <= k < pairs.len() ==> {
            let pair = #[trigger] pairs[k];
            &&& i <= pair.airy_index < airy.len()
            &&& j <= pair.mid70_index < mid70.len()
            &&& in_tolerance(
                g,
                airy,
                mid70,
                tolerance,
                pair.airy_index as int,
                pair.mid70_index as int,
            )
        }
    &&& forall|k: int, l: int|
        0 <= k < l < pairs.len() ==> (#[trigger] pairs[k]).airy_index != (
        #[trigger] pairs[l]).airy_index && pairs[k].mid70_index != pairs[l].mid70_index
}

/// Whether a later frame of the first sensor, or an earlier one of the second, never
/// makes the lead smaller. [`frames_in_time_order_have_monotone_leads`] says when this is
/// so.
pub open spec fn leads_are_monotone(
    g: Arithmetic,
    airy: Seq<FrameMetadata>,
    mid70: Seq<FrameMetadata>,
) -> bool {
    forall|i: int, k: int, j: int, l: int|
        0 <= i <= k < airy.len() && 0 <= j <= l < mid70.len() ==> (#[trigger] lead(
            g,
            airy,
            mid70,
            i,
            l,
        )).le_spec(#[trigger] lead(g, airy, mid70, k, j))
}

proof fn lemma_pairs_match(
    g: Arithmetic,
    airy: Seq<FrameMetadata>,
    mid70: Seq<FrameMetadata>,
    tolerance: Float64,
    i: int,
    j: int,
)
    requires
        0 <= i,
        0 <= j,
        airy.len() <= usize::MAX,
        mid70.len() <= usize::MAX,
    ensures
        is_matching(
            g,
            airy,
            mid70,
            tolerance,
            i,
            j,
            pairs_from(g, airy, mid70, tolerance, i, j),
        ),
    decreases airy.len() - i + mid70.len() - j,
{
    if i < airy.len() && j < mid70.len() {
        if in_tolerance(g, airy, mid70, tolerance, i, j) {
            lemma_pairs_match(g, airy, mid70, tolerance, i + 1, j + 1);
            let rest = pairs_from(g, airy, mid70, tolerance, i + 1, j + 1);
            let all = pairs_from(g, airy, mid70, tolerance, i, j);
            assert(forall|k: int| 1 <= k < all.len() ==> #[trigger] all[k] == rest[k - 1]);
        } else if lead(g, airy, mid70, i, j).lt_spec(Float64::zero_spec()) {
            lemma_pairs_match(g, airy, mid70, tolerance, i + 1, j);
        } else {
            lemma_pairs_match(g, airy, mid70, tolerance, i, j + 1);
        }
    }
}

proof fn lemma_without(
    g: Arithmetic,
    airy: Seq<FrameMetadata>,
    mid70: Seq<FrameMetadata>,
    tolerance: Float64,
    i: int,
    j: int,
    pairs: Seq<FramePair>,
    at: int,
)
    requires
        is_one_to_one(g, airy, mid70, tolerance, i, j, pairs),
        0 <= at < pairs.len(),
    ensures
        is_one_to_one(g, airy, mid70, tolerance, i, j, pairs.remove(at)),
        forall|k: int|
            0 <= k < pairs.len() - 1 ==> (#[trigger] pairs.remove(at)[k]).airy_index
                != pairs[at].airy_index && pairs.remove(at)[k].mid70_index
                != pairs[at].mid70_index,
{
    let rest = pairs.remove(at);
    assert forall|k: int| 0 <= k < rest.len() implies #[trigger] rest[k] == pairs[
        if k < at {
            k
        } else {
            k + 1
        }
    ] by {}
}

/// Two pairs that cross can be exchanged for one of their later frames, which are within
/// the tolerance as well.
proof fn lemma_uncrossed(
    g: Arithmetic,
    airy: Seq<FrameMetadata>,
    mid70: Seq<FrameMetadata>,
    tolerance: Float64,
    i: int,
    j: int,
    p: int,
    q: int,
)
    requires
        leads_are_monotone(g, airy, mid70),
        0 <= i <= p < airy.len(),
        0 <= j <= q < mid70.len(),
        in_tolerance(g, airy, mid70, tolerance, i, q),
        in_tolerance(g, airy, mid70, tolerance, p, j),
    ensures
        in_tolerance(g, airy, mid70, tolerance, p, q),
{
    assert(lead(g, airy, mid70, i, q).le_spec(lead(g, airy, mid70, p, q)));
    assert(lead(g, airy, mid70, p, q).le_spec(lead(g, airy, mid70, p, j)));
}

/// A one-to-one pairing loses at most one pair by doing without the first frame of each
/// sensor.
proof fn lemma_without_the_first(
    g: Arithmetic,
    airy: Seq<FrameMetadata>,
    mid70: Seq<FrameMetadata>,
    tolerance: Float64,
    i: int,
    j: int,
    other: Seq<FramePair>,
) -> (rest: Seq<FramePair>)
    requires
        0 <= i,
        0 <= j,
        leads_are_monotone(g, airy, mid70),
        is_one_to_one(g, airy, mid70, tolerance, i, j, other),
        other.len() > 0,
    ensures
        is_one_to_one(g, airy, mid70, tolerance, i + 1, j + 1, rest),
        rest.len() + 1 >= other.len(),
{
    let has_airy = exists|k: int| 0 <= k < other.len() && (#[trigger] other[k]).airy_index == i;
    let has_mid70 = exists|k: int| 0 <= k < other.len() && (#[trigger] other[k]).mid70_index == j;
    if has_airy && has_mid70 {
        let a = choose|k: int| 0 <= k < other.len() && (#[trigger] other[k]).airy_index == i;
        let b = choose|k: int| 0 <= k < other.len() && (#[trigger] other[k]).mid70_index == j;
        lemma_without(g, airy, mid70, tolerance, i, j, other, a);
        if a == b {
            other.remove(a)
        } else {
            let fewer = other.remove(a);
            let at = if b < a {
                b
            } else {
                b - 1
            };
            assert(fewer[at] == other[b]);
            let joined = FramePair { mid70_index: other[a].mid70_index, ..other[b] };
            lemma_uncrossed(
                g,
                airy,
                mid70,
                tolerance,
                i,
                j,
                other[b].airy_index as int,
                other[a].mid70_index as int,
            );
            let rest = fewer.update(at, joined);
            assert forall|k: int| 0 <= k < rest.len() implies {
                let pair = #[trigger] rest[k];
                &&& i + 1 <= pair.airy_index < airy.len()
                &&& j + 1 <= pair.mid70_index < mid70.len()
                &&& in_tolerance(
                    g,
                    airy,
                    mid70,
                    tolerance,
                    pair.airy_index as int,
                    pair.mid70_index as int,
                )
            } by {
                assert(fewer[k].airy_index != i);
                if k != at {
                    assert(fewer[k].mid70_index != fewer[at].mid70_index);
                } else {
                    assert(other[a].mid70_index != other[b].mid70_index);
                }
            }
            assert forall|k: int, l: int| 0 <= k < l < rest.len() implies (
            #[trigger] rest[k]).airy_index != (#[trigger] rest[l]).airy_index
                && rest[k].mid70_index != rest[l].mid70_index by {
                assert(fewer[k].airy_index != fewer[l].airy_index);
                assert(fewer[k].mid70_index != other[a].mid70_index);
                assert(fewer[l].mid70_index != other[a].mid70_index);
            }
            rest
        }
    } else {
        let at = if has_airy {
            choose|k: int| 0 <= k < other.len() && (#[trigger] other[k]).airy_index == i
        } else if has_mid70 {
            choose|k: int| 0 <= k < other.len() && (#[trigger] other[k]).mid70_index == j
        } else {
            0
        };
        lemma_without(g, airy, mid70, tolerance, i, j, other, at);
        let rest = other.remove(at);
        assert forall|k: int| 0 <= k < rest.len() implies i + 1 <= (#[trigger] rest[k]).airy_index
            && j + 1 <= rest[k].mid70_index by {
            let from = if k < at {
                k
            } else {
                k + 1
            };
            assert(rest[k] == other[from]);
        }
        rest
    }
}

proof fn lemma_pairs_are_most(
    g: Arithmetic,
    airy: Seq<FrameMetadata>,
    mid70: Seq<FrameMetadata>,
    tolerance: Float64,
    i: int,
    j: int,
    other: Seq<FramePair>,
)
    requires
        0 <= i,
        0 <= j,
        leads_are_monotone(g, airy, mid70),
        is_one_to_one(g, airy, mid70, tolerance, i, j, other),
    ensures
        other.len() <= pairs_from(g, airy, mid70, tolerance, i, j).len(),
    decreases airy.len() - i + mid70.len() - j,
{
    if other.len() > 0 {
        assert(i <= other[0].airy_index < airy.len());
        assert(j <= other[0].mid70_index < mid70.len());
        let here = lead(g, airy, mid70, i, j);
        if in_tolerance(g, airy, mid70, tolerance, i, j) {
            let rest = lemma_without_the_first(g, airy, mid70, tolerance, i, j, other);
            lemma_pairs_are_most(g, airy, mid70, tolerance, i + 1, j + 1, rest);
        } else if here.lt_spec(Float64::zero_spec()) {
            assert forall|k: int| 0 <= k < other.len() implies i + 1 <= (
            #[trigger] other[k]).airy_index by {
                let q = other[k].mid70_index as int;
                if other[k].airy_index == i {
                    assert(lead(g, airy, mid70, i, q).le_spec(here));
                }
            }
            lemma_pairs_are_most(g, airy, mid70, tolerance, i + 1, j, other);
        } else {
            assert forall|k: int| 0 <= k < other.len() implies j + 1 <= (
            #[trigger] other[k]).mid70_index by {
                let p = other[k].airy_index as int;
                if other[k].mid70_index == j {
                    assert(here.le_spec(lead(g, airy, mid70, p, j)));
                }
            }
            lemma_pairs_are_most(g, airy, mid70, tolerance, i, j + 1, other);
        }
    }
}

/// Pairing frames gives a matching: every pair is within the tolerance, both sides go up
/// from pair to pair, and no frame is in two pairs.
pub proof fn paired_frames_are_a_matching(
    g: Arithmetic,
    airy: Seq<FrameMetadata>,
    mid70: Seq<FrameMetadata>,
    tolerance: Float64,
)
    requires
        airy.len() <= usize::MAX,
        mid70.len() <= usize::MAX,
    ensures
        is_matching(
            g,
            airy,
            mid70,
            tolerance,
            0,
            0,
            pairs_from(g, airy, mid70, tolerance, 0, 0),
        ),
{
    lemma_pairs_match(g, airy, mid70, tolerance, 0, 0);
}

/// For frames in the order of their times, no pairs within the tolerance that use each
/// frame at most once are more, whatever their order.
pub proof fn paired_frames_are_a_largest_matching(
    g: Arithmetic,
    airy: Seq<FrameMetadata>,
    mid70: Seq<FrameMetadata>,
    tolerance: Float64,
    other: Seq<FramePair>,
)
    requires
        leads_are_monotone(g, airy, mid70),
        is_one_to_one(g, airy, mid70, tolerance, 0, 0, other),
    ensures
        other.len() <= pairs_from(g, airy, mid70, tolerance, 0, 0).len(),
{
    lemma_pairs_are_most(g, airy, mid70, tolerance, 0, 0, other);
}

/// Whether the difference of finite times never becomes smaller where the first time is
/// later or the second one earlier.
pub open spec fn differences_are_monotone(g: Arithmetic) -> bool {
    &&& forall|a: Float64, b: Float64, c: Float64|
        a.is_finite_spec() && b.is_finite_spec() && c.is_finite_spec() && a.le_spec(b) ==> (
        #[trigger] (g.difference64)(a, c)).le_spec(#[trigger] (g.difference64)(b, c))
    &&& forall|a: Float64, b: Float64, c: Float64|
        a.is_finite_spec() && b.is_finite_spec() && c.is_finite_spec() && a.le_spec(b) ==> (
        #[trigger] (g.difference64)(c, b)).le_spec(#[trigger] (g.difference64)(c, a))
}

/// Whether the times of the frames are finite and never go back.
pub open spec fn in_time_order(frames: Seq<FrameMetadata>) -> bool {
    &&& forall|i: int|
        0 <= i < frames.len() ==> (#[trigger] frames[i]).timestamp.is_finite_spec()
    &&& forall|i: int, j: int|
        0 <= i <= j < frames.len() ==> (#[trigger] frames[i]).timestamp.le_spec(
            (#[trigger] frames[j]).timestamp,
        )
}

/// Where the finite times of both sensors never go back, leads are monotone.
pub proof fn frames_in_time_order_have_monotone_leads(
    g: Arithmetic,
    airy: Seq<FrameMetadata>,
    mid70: Seq<FrameMetadata>,
)
    requires
        differences_are_monotone(g),
        in_time_order(airy),
        in_time_order(mid70),
    ensures
        leads_are_monotone(g, airy, mid70),
{
    assert forall|i: int, k: int, j: int, l: int|
        0 <= i <= k < airy.len() && 0 <= j <= l < mid70.len() implies (#[trigger] lead(
        g,
        airy,
        mid70,
        i,
        l,
    )).le_spec(#[trigger] lead(g, airy, mid70, k, j)) by {
        let last = airy[k].timestamp;
        let late = mid70[l].timestamp;
        assert((g.difference64)(airy[i].timestamp, late).le_spec((g.difference64)(last, late)));
        assert((g.difference64)(last, late).le_spec(
            (g.difference64)(last, mid70[j].timestamp),
        ));
    }
}

// ---------------------------------------------------------------------------
// Order and summary
// ---------------------------------------------------------------------------

/// The order of frames by their times.
pub open spec fn time_ranks(frames: Seq<FrameMetadata>) -> Seq<i64> {
    frames.map_values(|f: FrameMetadata| f.timestamp.total_rank_spec() as i64)
}

/// The positions of the frames in the order of their times; frames of the same time stay
/// in their order.
pub fn chronological_order(frames: &[FrameMetadata]) -> (r: Vec<usize>)
    ensures
        r.len() == frames.len(),
        positions(r@) == stable_order(time_ranks(frames@)),
        forall|i: int| 0 <= i < r.len() ==> #[trigger] r[i] < frames.len(),
{
    let mut ranks: Vec<i64> = Vec::new();
    let mut k: usize = 0;
    while k < frames.len()
        invariant
            k <= frames.len(),
            ranks.len() == k,
            forall|j: int|
                0 <= j < k ==> #[trigger] ranks[j] == frames[j].timestamp.total_rank_spec(),
        decreases frames.len() - k,
    {
        ranks.push(frames[k].timestamp.total_rank());
        k += 1;
    }
    assert(ranks@ =~= time_ranks(frames@));
    sort_positions(&ranks)
}

/// The frames in the order of their times.
pub open spec fn chronological(frames: Seq<FrameMetadata>, sorted: Seq<FrameMetadata>) -> bool {
    let order = stable_order(time_ranks(frames));
    &&& sorted.len() == frames.len()
    &&& forall|i: int|
        0 <= i < sorted.len() ==> {
            let f = #[trigger] sorted[i];
            &&& f.source_path@ == frames[order[i]].source_path@
            &&& f.source_number == frames[order[i]].source_number
            &&& f.timestamp == frames[order[i]].timestamp
        }
}

pub fn sort_frames(frames: &Vec<FrameMetadata>) -> (r: Vec<FrameMetadata>)
    ensures
        chronological(frames@, r@),
{
    let order = chronological_order(frames);
    let ghost wanted = stable_order(time_ranks(frames@));
    let mut r: Vec<FrameMetadata> = Vec::new();
    let mut k: usize = 0;
    while k < order.len()
        invariant
            k <= order.len(),
            r.len() == k,
            order.len() == frames.len(),
            positions(order@) == wanted,
            forall|i: int| 0 <= i < order.len() ==> #[trigger] order[i] < frames.len(),
            forall|i: int|
                0 <= i < k ==> {
                    let f = #[trigger] r[i];
                    &&& f.source_path@ == frames[wanted[i]].source_path@
                    &&& f.source_number == frames[wanted[i]].source_number
                    &&& f.timestamp == frames[wanted[i]].timestamp
                },
        decreases order.len() - k,
    {
        let at: usize = order[k];
        assert(positions(order@)[k as int] == at as int);
        let frame = &frames[at];
        r.push(
            FrameMetadata {
                source_path: frame.source_path.clone(),
                source_number: frame.source_number,
                timestamp: frame.timestamp,
            },
        );
        k += 1;
    }
    r
}

/// Sorted frames never go back in time.
pub proof fn sorted_frames_are_in_order(
    frames: Seq<FrameMetadata>,
    sorted: Seq<FrameMetadata>,
    i: int,
    j: int,
)
    requires
        chronological(frames, sorted),
        0 <= i < j < sorted.len(),
    ensures
        sorted[i].timestamp.total_rank_spec() <= sorted[j].timestamp.total_rank_spec(),
{
    let ranks = time_ranks(frames);
    stable_order_is_sorted(ranks);
    let order = stable_order(ranks);
    assert(crate::sorting::precedes(ranks, order[i], order[j]));
    assert(ranks[order[i]] == frames[order[i]].timestamp.total_rank_spec());
    assert(ranks[order[j]] == frames[order[j]].timestamp.total_rank_spec());
}

/// Sorting frames of finite times puts them in the order of their times.
pub proof fn sorted_frames_are_in_time_order(
    frames: Seq<FrameMetadata>,
    sorted: Seq<FrameMetadata>,
)
    requires
        chronological(frames, sorted),
        forall|i: int|
            0 <= i < frames.len() ==> (#[trigger] frames[i]).timestamp.is_finite_spec(),
    ensures
        in_time_order(sorted),
{
    let order = stable_order(time_ranks(frames));
    stable_order_is_sorted(time_ranks(frames));
    assert forall|i: int| 0 <= i < sorted.len() implies (
    #[trigger] sorted[i]).timestamp.is_finite_spec() by {
        assert(frames[order[i]].timestamp.is_finite_spec());
    }
    assert forall|i: int, j: int| 0 <= i <= j < sorted.len() implies (
    #[trigger] sorted[i]).timestamp.le_spec((#[trigger] sorted[j]).timestamp) by {
        if i < j {
            sorted_frames_are_in_order(frames, sorted, i, j);
        }
    }
}

/// Sorting the frames of two sensors and pairing them gives as many pairs as can be: no
/// pairs within the tolerance that use each frame at most once are more, where the times
/// are finite and their differences monotone.
pub proof fn sorted_frames_have_a_largest_matching(
    g: Arithmetic,
    airy: Seq<FrameMetadata>,
    airy_sorted: Seq<FrameMetadata>,
    mid70: Seq<FrameMetadata>,
    mid70_sorted: Seq<FrameMetadata>,
    tolerance: Float64,
    other: Seq<FramePair>,
)
    requires
        differences_are_monotone(g),
        chronological(airy, airy_sorted),
        chronological(mid70, mid70_sorted),
        forall|i: int| 0 <= i < airy.len() ==> (#[trigger] airy[i]).timestamp.is_finite_spec(),
        forall|i: int| 0 <= i < mid70.len() ==> (#[trigger] mid70[i]).timestamp.is_finite_spec(),
        is_one_to_one(g, airy_sorted, mid70_sorted, tolerance, 0, 0, other),
    ensures
        other.len() <= pairs_from(g, airy_sorted, mid70_sorted, tolerance, 0, 0).len(),
{
    sorted_frames_are_in_time_order(airy, airy_sorted);
    sorted_frames_are_in_time_order(mid70, mid70_sorted);
    frames_in_time_order_have_monotone_leads(g, airy_sorted, mid70_sorted);
    paired_frames_are_a_largest_matching(g, airy_sorted, mid70_sorted, tolerance, other);
}

/// The largest difference of the first `k` pairs.
pub open spec fn largest_difference_upto(pairs: Seq<FramePair>, k: int) -> Float64
    decreases k,
{
    if k <= 0 {
        Float64::zero_spec()
    } else {
        largest_difference_upto(pairs, k - 1).max_spec(pairs[k - 1].difference_seconds)
    }
}

/// The largest difference of all pairs, and 0 where there are none.
pub fn largest_difference(pairs: &[FramePair]) -> (r: Float64)
    ensures
        r == largest_difference_upto(pairs@, pairs.len() as int),
{
    let mut r = Float64::zero();
    let mut k: usize = 0;
    while k < pairs.len()
        invariant
            k <= pairs.len(),
            r == largest_difference_upto(pairs@, k as int),
        decreases pairs.len() - k,
    {
        r = r.max(pairs[k].difference_seconds);
        k += 1;
    }
    r
}

/// Why nothing is written.
#[derive(Clone, Copy, Debug, PartialEq, Eq, Structural)]
pub enum PreflightError {
    ReportExists,
    /// A file of the first sensor, or else of the second, is there already.
    OutputExists { position: usize, airy: bool },
}

/// Whether neither file of pair `k` is there already.
pub open spec fn is_free(airy: Seq<bool>, mid70: Seq<bool>, k: int) -> bool {
    !airy[k] && !mid70[k]
}

/// The first pair, from `k` on, of which a file is there already.
pub open spec fn first_conflict(airy: Seq<bool>, mid70: Seq<bool>, k: int) -> Option<
    PreflightError,
>
    decreases airy.len() - k,
{
    if k < 0 || k >= airy.len() || k >= mid70.len() {
        None
    } else if airy[k] {
        Some(PreflightError::OutputExists { position: k as usize, airy: true })
    } else if mid70[k] {
        Some(PreflightError::OutputExists { position: k as usize, airy: false })
    } else {
        first_conflict(airy, mid70, k + 1)
    }
}

/// Whether all files can be written without replacing one. For each pair, `airy_exists`
/// and `mid70_exists` say whether its two files are there already.
pub fn preflight_outputs(
    report_exists: bool,
    airy_exists: &[bool],
    mid70_exists: &[bool],
) -> (r: Result<(), PreflightError>)
    requires
        airy_exists.len() == mid70_exists.len(),
    ensures
        r is Ok <==> !report_exists && forall|k: int|
            0 <= k < airy_exists.len() ==> #[trigger] is_free(airy_exists@, mid70_exists@, k),
        r matches Err(e) ==> e == if report_exists {
            PreflightError::ReportExists
        } else {
            first_conflict(airy_exists@, mid70_exists@, 0).unwrap()
        },
{
    if report_exists {
        return Err(PreflightError::ReportExists);
    }
    let mut k: usize = 0;
    while k < airy_exists.len()
        invariant
            k <= airy_exists.len(),
            airy_exists.len() == mid70_exists.len(),
            !report_exists,
            first_conflict(airy_exists@, mid70_exists@, 0) == first_conflict(
                airy_exists@,
                mid70_exists@,
                k as int,
            ),
            forall|j: int| 0 <= j < k ==> #[trigger] is_free(airy_exists@, mid70_exists@, j),
        decreases airy_exists.len() - k,
    {
        if airy_exists[k] {
            assert(!is_free(airy_exists@, mid70_exists@, k as int));
            return Err(PreflightError::OutputExists { position: k, airy: true });
        }
        if mid70_exists[k] {
            assert(!is_free(airy_exists@, mid70_exists@, k as int));
            return Err(PreflightError::OutputExists { position: k, airy: false });
        }
        k += 1;
    }
    Ok(())
}

// ---------------------------------------------------------------------------
// What names, times and pairs are
// ---------------------------------------------------------------------------

/// The stem of a file is what stands between the last slash and the last dot after it.
pub proof fn stems_are_between_slash_and_dot(
    folder: Seq<char>,
    stem: Seq<char>,
    extension: Seq<char>,
)
    requires
        stem.len() > 0,
        extension.len() > 0,
        forall|i: int| 0 <= i < stem.len() ==> #[trigger] stem[i] != '/',
        forall|i: int|
            0 <= i < extension.len() ==> #[trigger] extension[i] != '/' && extension[i] != '.',
    ensures
        file_stem_spec(folder + seq!['/'] + stem + seq!['.'] + extension) == Some(stem),
        file_stem_spec(stem + seq!['.'] + extension) == Some(stem),
{
    let name = stem + seq!['.'] + extension;
    let path = folder + seq!['/'] + stem + seq!['.'] + extension;
    let slash = folder.len() as int;
    assert(path[path.len() - 1] == extension[extension.len() - 1]);
    assert(name[name.len() - 1] == extension[extension.len() - 1]);
    assert(trimmed(path) == path);
    assert(trimmed(name) == name);
    assert(path[slash] == '/');
    assert(path.skip(slash + 1) =~= name);
    assert forall|i: int| 0 <= i < name.len() implies #[trigger] name[i] != '/' by {
        if i < stem.len() {
            assert(name[i] == stem[i]);
        } else if i > stem.len() {
            assert(name[i] == extension[i - stem.len() - 1]);
        }
    }
    assert forall|i: int| slash < i < path.len() implies #[trigger] path[i] != '/' by {
        assert(path[i] == name[i - slash - 1]);
    }
    lemma_last_index_at(path, '/', path.len() as int, slash);
    lemma_last_index_absent(name, '/', name.len() as int);
    assert(name.skip(0) =~= name);
    let dot = stem.len() as int;
    assert(name[dot] == '.');
    assert forall|i: int| dot < i < name.len() implies #[trigger] name[i] != '.' by {
        assert(name[i] == extension[i - stem.len() - 1]);
    }
    lemma_last_index_at(name, '.', name.len() as int, dot);
    assert(name.take(dot) =~= stem);
    assert(names_a_file(name)) by {
        assert(name[name.len() - 1] != '.');
        assert(seq!['.'][0] == '.');
        assert(seq!['.', '.'][1] == '.');
    }
}

/// The folder of a file does not change its number.
pub proof fn folders_do_not_change_the_number(folder: Seq<char>, number: u32)
    ensures
        cloud_number(folder + seq!['/'] + cloud_filename(number)) == Ok::<u32, CloudNumberError>(
            number,
        ),
{
    reveal_strlit("cloud_");
    reveal_strlit(".pcd");
    let digits = decimal(number as nat);
    decimal_gives_the_number_back(number as nat);
    let prefix = "cloud_"@;
    let stem = prefix + digits;
    let extension = seq!['p', 'c', 'd'];
    assert forall|i: int| 0 <= i < stem.len() implies #[trigger] stem[i] != '/' by {
        if prefix.len() <= i {
            assert(stem[i] == digits[i - prefix.len()]);
            assert(is_digit(digits[i - prefix.len()]));
        }
    }
    stems_are_between_slash_and_dot(folder, stem, extension);
    assert(".pcd"@ =~= seq!['.'] + extension);
    assert(folder + seq!['/'] + cloud_filename(number) =~= folder + seq!['/'] + stem + seq!['.']
        + extension);
    assert(stem.take(prefix.len() as int) =~= prefix);
    assert(stem.skip(prefix.len() as int) =~= digits);
}

/// The first and the last finite time of a cloud enclose every finite one, and are times
/// of points.
pub proof fn finite_times_enclose_the_points(points: Seq<PointXYZIT>, k: int, i: int)
    requires
        0 <= i < k <= points.len(),
        points[i].timestamp.is_finite_spec(),
    ensures
        finite_times_upto(points, k).0.le_spec(points[i].timestamp),
        points[i].timestamp.le_spec(finite_times_upto(points, k).1),
        exists|j: int|
            0 <= j < k && (#[trigger] points[j]).timestamp == finite_times_upto(points, k).0,
        exists|j: int|
            0 <= j < k && (#[trigger] points[j]).timestamp == finite_times_upto(points, k).1,
    decreases k,
{
    lemma_finite_times(points, k - 1);
    let (first, last) = finite_times_upto(points, k - 1);
    let now = points[k - 1].timestamp;
    let some = exists|j: int|
        0 <= j < k - 1 && (#[trigger] points[j]).timestamp.is_finite_spec();
    assert(points[k - 1].timestamp == now);
    if some {
        let other = choose|j: int|
            0 <= j < k - 1 && (#[trigger] points[j]).timestamp.is_finite_spec();
        finite_times_enclose_the_points(
            points,
            k - 1,
            if i < k - 1 {
                i
            } else {
                other
            },
        );
        let a = choose|j: int| 0 <= j < k - 1 && (#[trigger] points[j]).timestamp == first;
        let b = choose|j: int| 0 <= j < k - 1 && (#[trigger] points[j]).timestamp == last;
        assert(points[a].timestamp == first && points[b].timestamp == last);
    } else {
        assert(i == k - 1);
    }
}

/// The time of a frame is half of the way from its first to its last time after the first;
/// that of a frame at one time is this time.
pub proof fn frames_are_at_the_middle_of_their_times(g: Arithmetic, first: Float64, last: Float64)
    requires
        forall|a: Float64, b: Float64| #[trigger] (g.difference64)((g.sum64)(a, b), a) == b,
        (g.sum64)(
            first,
            (g.product64)((g.difference64)(first, first), Float64 { bits: 0x3fe0_0000_0000_0000 }),
        ) == first,
    ensures
        (g.difference64)(middle(g, first, last), first) == (g.product64)(
            (g.difference64)(last, first),
            Float64 { bits: 0x3fe0_0000_0000_0000 },
        ),
        middle(g, first, first) == first,
{
}

/// Each pair holds how far the times of its two frames are apart, which is within the
/// tolerance.
pub proof fn pairs_hold_the_difference_of_their_times(
    g: Arithmetic,
    airy: Seq<FrameMetadata>,
    mid70: Seq<FrameMetadata>,
    tolerance: Float64,
    i: int,
    j: int,
    k: int,
)
    requires
        0 <= i,
        0 <= j,
        airy.len() <= usize::MAX,
        mid70.len() <= usize::MAX,
        0 <= k < pairs_from(g, airy, mid70, tolerance, i, j).len(),
    ensures
        ({
            let pair = pairs_from(g, airy, mid70, tolerance, i, j)[k];
            let apart = (g.difference64)(
                airy[pair.airy_index as int].timestamp,
                mid70[pair.mid70_index as int].timestamp,
            ).abs_spec();
            &&& pair.difference_seconds == apart
            &&& apart.le_spec(tolerance)
            &&& pair.airy_index < airy.len() && pair.mid70_index < mid70.len()
        }),
    decreases airy.len() - i + mid70.len() - j,
{
    if in_tolerance(g, airy, mid70, tolerance, i, j) {
        let rest = pairs_from(g, airy, mid70, tolerance, i + 1, j + 1);
        let all = pairs_from(g, airy, mid70, tolerance, i, j);
        if k > 0 {
            assert(all[k] == rest[k - 1]);
            pairs_hold_the_difference_of_their_times(
                g,
                airy,
                mid70,
                tolerance,
                i + 1,
                j + 1,
                k - 1,
            );
        }
    } else if lead(g, airy, mid70, i, j).lt_spec(Float64::zero_spec()) {
        pairs_hold_the_difference_of_their_times(g, airy, mid70, tolerance, i + 1, j, k);
    } else {
        pairs_hold_the_difference_of_their_times(g, airy, mid70, tolerance, i, j + 1, k);
    }
}

/// The largest difference is none below that of any pair, and is zero or that of one.
pub proof fn the_largest_difference_is_above_all(pairs: Seq<FramePair>, k: int, i: int)
    requires
        0 <= i < k <= pairs.len(),
        !pairs[i].difference_seconds.is_nan_spec(),
    ensures
        pairs[i].difference_seconds.le_spec(largest_difference_upto(pairs, k)),
        largest_difference_upto(pairs, k) == Float64::zero_spec() || exists|j: int|
            0 <= j < k && (#[trigger] pairs[j]).difference_seconds == largest_difference_upto(
                pairs,
                k,
            ),
{
    lemma_largest_difference(pairs, k, i);
}

proof fn lemma_largest_difference(pairs: Seq<FramePair>, k: int, i: int)
    requires
        0 <= k <= pairs.len(),
    ensures
        !largest_difference_upto(pairs, k).is_nan_spec(),
        0 <= i < k && !pairs[i].difference_seconds.is_nan_spec()
            ==> pairs[i].difference_seconds.le_spec(largest_difference_upto(pairs, k)),
        largest_difference_upto(pairs, k) == Float64::zero_spec() || exists|j: int|
            0 <= j < k && (#[trigger] pairs[j]).difference_seconds == largest_difference_upto(
                pairs,
                k,
            ),
    decreases k,
{
    if k > 0 {
        lemma_largest_difference(pairs, k - 1, i);
        let before = largest_difference_upto(pairs, k - 1);
        let now = largest_difference_upto(pairs, k);
        if now == pairs[k - 1].difference_seconds {
            assert(pairs[k - 1].difference_seconds == now);
        } else if before != Float64::zero_spec() {
            let j = choose|j: int|
                0 <= j < k - 1 && (#[trigger] pairs[j]).difference_seconds == before;
            assert(pairs[j].difference_seconds == now);
        }
    }
}

/// The conflict that is reported is that of the first pair that is not free, and of its
/// first file that is there; none is reported where all are free.
pub proof fn conflicts_are_reported_of_the_first_pair(
    airy: Seq<bool>,
    mid70: Seq<bool>,
    k: int,
    at: int,
)
    requires
        airy.len() == mid70.len() <= usize::MAX,
        0 <= k <= at <= airy.len(),
        forall|i: int| k <= i < at ==> !(#[trigger] airy[i]) && !mid70[i],
    ensures
        at == airy.len() ==> first_conflict(airy, mid70, k) is None,
        at < airy.len() && airy[at] ==> first_conflict(airy, mid70, k) == Some(
            PreflightError::OutputExists { position: at as usize, airy: true },
        ),
        at < airy.len() && !airy[at] && mid70[at] ==> first_conflict(airy, mid70, k) == Some(
            PreflightError::OutputExists { position: at as usize, airy: false },
        ),
    decreases at - k,
{
    if k < at {
        assert(!airy[k] && !mid70[k]);
        conflicts_are_reported_of_the_first_pair(airy, mid70, k + 1, at);
    }
}

/// A name without a dot is its own stem, and so is one with a dot in front alone. Slashes
/// at the end do not count.
pub proof fn names_without_extension_are_their_stem(name: Seq<char>, path: Seq<char>)
    requires
        name.len() > 0,
        forall|i: int| 0 <= i < name.len() ==> #[trigger] name[i] != '/' && name[i] != '.',
    ensures
        file_stem_spec(name) == Some(name),
        file_stem_spec(seq!['.'] + name) == Some(seq!['.'] + name),
        file_stem_spec(path.push('/')) == file_stem_spec(path),
        file_stem_spec(path.push('/').push('.')) == file_stem_spec(path),
{
    assert(name[name.len() - 1] != '/' && name[name.len() - 1] != '.');
    assert(trimmed(name) == name);
    lemma_last_index_absent(name, '/', name.len() as int);
    lemma_last_index_absent(name, '.', name.len() as int);
    assert(name.skip(0) =~= name);
    assert(seq!['.'][0] == '.');
    assert(seq!['.', '.'][0] == '.' && seq!['.', '.'][1] == '.');
    assert(name[0] != '.');
    assert(names_a_file(name));
    let hidden = seq!['.'] + name;
    let len = hidden.len() as int;
    assert(hidden[0] == '.');
    assert forall|i: int| 0 < i < len implies #[trigger] hidden[i] != '/' && hidden[i]
        != '.' by {
        assert(hidden[i] == name[i - 1]);
    }
    assert(hidden[len - 1] == name[name.len() - 1]);
    assert(trimmed(hidden) == hidden);
    lemma_last_index_absent(hidden, '/', len);
    lemma_last_index_at(hidden, '.', len, 0);
    assert(hidden.skip(0) =~= hidden);
    assert(hidden.len() >= 2);
    assert(hidden[1] != '.');
    assert(names_a_file(hidden));
    let slashed = path.push('/');
    assert(slashed.drop_last() =~= path);
    assert(trimmed(slashed) == trimmed(path));
    let dotted = slashed.push('.');
    assert(dotted.drop_last() =~= slashed);
    assert(dotted[dotted.len() - 2] == '/');
    assert(trimmed(dotted) == trimmed(slashed));
}

} // verus!
