//! The path model: a filesystem path is decomposed into an ordered sequence
//! of named segments, compared case-insensitively.  Segment sequences support
//! identity, contiguous-run containment (for skip-folder matching), relative
//! suffix computation, and concatenation.

use vstd::prelude::*;
use vstd::string::*;

use crate::utilities::{chars_of, ci_eq, lowercase, push_char};

verus! {

pub const WINDOWS_SPLITTER: char = '\\';

pub const UNIX_SPLITTER: char = '/';

/// Directory separators recognized when decomposing a path.
pub open spec fn is_sep(c: char) -> bool {
    c == '/' || c == '\\'
}

/// Left-to-right scan state while splitting `s` into segments: the completed
/// segments and the currently open (possibly empty) segment.
pub open spec fn scan_segments(s: Seq<char>) -> (Seq<Seq<char>>, Seq<char>)
    decreases s.len(),
{
    if s.len() == 0 {
        (Seq::empty(), Seq::empty())
    } else {
        let prev = scan_segments(s.drop_last());
        let c = s.last();
        if is_sep(c) {
            if prev.1.len() > 0 {
                (prev.0.push(prev.1), Seq::<char>::empty())
            } else {
                (prev.0, Seq::<char>::empty())
            }
        } else {
            (prev.0, prev.1.push(c))
        }
    }
}

/// The segments of a path string: split on separators, empty components
/// dropped.
pub open spec fn decompose(s: Seq<char>) -> Seq<Seq<char>> {
    let scanned = scan_segments(s);
    if scanned.1.len() > 0 {
        scanned.0.push(scanned.1)
    } else {
        scanned.0
    }
}

/// The segments joined with `sep` between them.
pub open spec fn join_with(segs: Seq<Seq<char>>, sep: char) -> Seq<char>
    decreases segs.len(),
{
    if segs.len() == 0 {
        Seq::empty()
    } else if segs.len() == 1 {
        segs[0]
    } else {
        join_with(segs.drop_last(), sep).push(sep) + segs.last()
    }
}

/// A well-formed segment name: nonempty and free of separators.
pub open spec fn seg_name_wf(n: Seq<char>) -> bool {
    n.len() > 0 && forall|j: int| 0 <= j < n.len() ==> !is_sep(n[j])
}

/// Every segment that `decompose` produces is well formed.
proof fn lemma_scan_wf(s: Seq<char>)
    ensures
        forall|i: int|
            0 <= i < scan_segments(s).0.len() ==> seg_name_wf(#[trigger] scan_segments(s).0[i]),
        forall|j: int| 0 <= j < scan_segments(s).1.len() ==> !is_sep(scan_segments(s).1[j]),
    decreases s.len(),
{
    if s.len() > 0 {
        lemma_scan_wf(s.drop_last());
        let prev = scan_segments(s.drop_last());
        let c = s.last();
        if is_sep(c) {
            if prev.1.len() > 0 {
                assert(seg_name_wf(prev.1));
                assert forall|i: int|
                    0 <= i < scan_segments(s).0.len() implies seg_name_wf(
                    #[trigger] scan_segments(s).0[i],
                ) by {
                    if i < prev.0.len() {
                        assert(scan_segments(s).0[i] == prev.0[i]);
                    } else {
                        assert(scan_segments(s).0[i] == prev.1);
                    }
                }
            }
        } else {
            assert forall|j: int|
                0 <= j < scan_segments(s).1.len() implies !is_sep(scan_segments(s).1[j]) by {
                if j < prev.1.len() {
                    assert(scan_segments(s).1[j] == prev.1[j]);
                } else {
                    assert(scan_segments(s).1[j] == c);
                }
            }
        }
    }
}

pub proof fn lemma_decompose_wf(s: Seq<char>)
    ensures
        forall|i: int| 0 <= i < decompose(s).len() ==> seg_name_wf(#[trigger] decompose(s)[i]),
{
    lemma_scan_wf(s);
}

/// Two segment sequences are identical when they have the same length and
/// corresponding components match case-insensitively.
pub open spec fn spec_identical(a: Seq<Seq<char>>, b: Seq<Seq<char>>) -> bool {
    a.len() == b.len() && forall|i: int| 0 <= i < a.len() ==> ci_eq(a[i], b[i])
}

/// `b` matches a contiguous run of `a` starting at `i`.
pub open spec fn run_matches_at(a: Seq<Seq<char>>, b: Seq<Seq<char>>, i: int) -> bool {
    &&& 0 <= i
    &&& i + b.len() <= a.len()
    &&& forall|j: int| 0 <= j < b.len() ==> ci_eq(a[i + j], b[j])
}

/// `b` occurs somewhere in `a` as a contiguous run.
pub open spec fn spec_contains_run(a: Seq<Seq<char>>, b: Seq<Seq<char>>) -> bool {
    exists|i: int| run_matches_at(a, b, i)
}

/// The relative suffix of `full` with respect to `base`: components are
/// consumed pairwise from the left while they match case-insensitively; the
/// first mismatch, or `base` running out, starts the suffix.  `None` when
/// `full` is exhausted first (the suffix would be empty).
pub open spec fn spec_differing(base: Seq<Seq<char>>, full: Seq<Seq<char>>) -> Option<
    Seq<Seq<char>>,
>
    decreases full.len(),
{
    if full.len() == 0 {
        None
    } else if base.len() == 0 {
        Some(full)
    } else if ci_eq(base[0], full[0]) {
        spec_differing(base.drop_first(), full.drop_first())
    } else {
        Some(full)
    }
}

/// One ordered sequence of path component names.
pub struct PathSegment {
    names: Vec<String>,
}

impl View for PathSegment {
    type V = Seq<Seq<char>>;

    closed spec fn view(&self) -> Seq<Seq<char>> {
        self.names@.map_values(|s: String| s@)
    }
}

/// Clones a vector of strings, value for value.
pub(crate) fn clone_string_vec(v: &Vec<String>) -> (r: Vec<String>)
    ensures
        r@ =~= v@,
{
    let mut r: Vec<String> = Vec::new();
    let mut i: usize = 0;
    while i < v.len()
        invariant
            i <= v@.len(),
            r@ =~= v@.take(i as int),
        decreases v@.len() - i,
    {
        let s: &String = &v[i];
        r.push(s.clone());
        proof {
            assert(v@.take(i + 1 as int) =~= v@.take(i as int).push(v@[i as int]));
        }
        i = i + 1;
    }
    r
}

/// Joins the strings of `v` with `sep` between them.
pub(crate) fn join_strings(v: &Vec<String>, sep: char) -> (r: String)
    ensures
        r@ =~= join_with(v@.map_values(|s: String| s@), sep),
{
    let ghost segs = v@.map_values(|s: String| s@);
    let mut out = String::new();
    let mut i: usize = 0;
    while i < v.len()
        invariant
            segs == v@.map_values(|s: String| s@),
            i <= segs.len(),
            out@ =~= join_with(segs.take(i as int), sep),
        decreases segs.len() - i,
    {
        proof {
            assert(segs.take(i + 1 as int).drop_last() =~= segs.take(i as int));
            assert(segs.take(i + 1 as int).last() == segs[i as int]);
        }
        if i > 0 {
            push_char(&mut out, sep);
        }
        let s: &String = &v[i];
        out.append(s.as_str());
        proof {
            if i == 0 {
                assert(out@ =~= segs.take(1int)[0]);
                assert(out@ =~= join_with(segs.take(1int), sep));
            }
        }
        i = i + 1;
    }
    proof {
        assert(segs.take(segs.len() as int) =~= segs);
    }
    out
}

/// Case-insensitive equality of two component names.
pub(crate) fn name_ci_eq(a: &String, b: &String) -> (r: bool)
    ensures
        r == ci_eq(a@, b@),
{
    let la = lowercase(a.as_str());
    let lb = lowercase(b.as_str());
    la.eq(&lb)
}

impl PathSegment {
    /// Every component name is nonempty and separator-free, and there is at
    /// least one.
    pub open spec fn wf(&self) -> bool {
        self@.len() > 0 && forall|i: int| 0 <= i < self@.len() ==> seg_name_wf(#[trigger] self@[i])
    }

    /// The suffixes of this segment sequence: element `i` holds the
    /// components from position `i` on.
    pub fn get_remaining_segments(&self) -> (r: Vec<PathSegment>)
        ensures
            r@.len() == self@.len(),
            forall|i: int| 0 <= i < r@.len() ==> #[trigger] r@[i]@ =~= self@.skip(i),
    {
        let n = self.names.len();
        let mut r: Vec<PathSegment> = Vec::new();
        let mut i: usize = 0;
        while i < n
            invariant
                n == self.names@.len(),
                i <= n,
                r@.len() == i,
                forall|k: int| 0 <= k < i ==> #[trigger] r@[k]@ =~= self@.skip(k),
            decreases n - i,
        {
            let mut names: Vec<String> = Vec::new();
            let mut j: usize = i;
            while j < n
                invariant
                    n == self.names@.len(),
                    i <= j <= n,
                    names@ =~= self.names@.subrange(i as int, j as int),
                decreases n - j,
            {
                let s: &String = &self.names[j];
                names.push(s.clone());
                proof {
                    assert(self.names@.subrange(i as int, j + 1 as int) =~= self.names@.subrange(
                        i as int,
                        j as int,
                    ).push(self.names@[j as int]));
                }
                j = j + 1;
            }
            let seg = PathSegment { names };
            proof {
                assert(seg@ =~= self@.skip(i as int));
            }
            r.push(seg);
            i = i + 1;
        }
        r
    }

    /// The component names joined with `separator`.
    pub fn get_segment_string(&self, separator: char) -> (r: String)
        ensures
            r@ =~= join_with(self@, separator),
    {
        join_strings(&self.names, separator)
    }

    /// The component names, as owned strings.
    pub fn get_segments(&self) -> (r: Vec<String>)
        ensures
            r@.map_values(|s: String| s@) =~= self@,
    {
        clone_string_vec(&self.names)
    }

    /// The component names joined with the default separator.
    pub fn get_default_segment_string(&self) -> (r: String)
        ensures
            r@ =~= join_with(self@, UNIX_SPLITTER),
    {
        join_strings(&self.names, UNIX_SPLITTER)
    }

    /// How many components the sequence has: the depth of the path.
    pub fn get_segment_length(&self) -> (r: usize)
        ensures
            r == self@.len(),
    {
        self.names.len()
    }

    /// Whether the components of `folder_segment` occur, as a contiguous run
    /// matched case-insensitively, among the components of `self`.
    pub fn contains_all_of_segment(&self, folder_segment: &PathSegment) -> (r: bool)
        ensures
            r == spec_contains_run(self@, folder_segment@),
    {
        let a = &self.names;
        let b = &folder_segment.names;
        let alen = a.len();
        let blen = b.len();
        if blen > alen {
            assert(forall|i: int| !run_matches_at(self@, folder_segment@, i));
            return false;
        }
        let bound = alen - blen;
        let mut i: usize = 0;
        while i <= bound
            invariant
                alen == self@.len(),
                blen == folder_segment@.len(),
                alen == a@.len(),
                blen == b@.len(),
                a@ == self.names@,
                b@ == folder_segment.names@,
                bound == alen - blen,
                blen <= alen,
                forall|k: int| 0 <= k < i ==> !run_matches_at(self@, folder_segment@, k),
            decreases bound + 1 - i,
        {
            let mut j: usize = 0;
            let mut matched = true;
            while j < blen
                invariant
                    alen == self@.len(),
                    blen == folder_segment@.len(),
                    alen == a@.len(),
                    blen == b@.len(),
                    a@ == self.names@,
                    b@ == folder_segment.names@,
                    i + blen <= alen,
                    j <= blen,
                    matched == (forall|l: int|
                        0 <= l < j ==> ci_eq(self@[i + l], folder_segment@[l])),
                decreases blen - j,
            {
                let idx = i + j;
                proof {
                    assert(self@[idx as int] == a@[idx as int]@);
                    assert(folder_segment@[j as int] == b@[j as int]@);
                }
                if !name_ci_eq(&a[idx], &b[j]) {
                    matched = false;
                }
                j = j + 1;
            }
            if matched {
                assert(run_matches_at(self@, folder_segment@, i as int));
                return true;
            }
            i = i + 1;
        }
        assert forall|k: int| !run_matches_at(self@, folder_segment@, k) by {
            if k > bound {
                assert(k + folder_segment@.len() > self@.len());
            }
        }
        false
    }

    /// Structural case-insensitive equality of two segment sequences.
    pub fn identical(&self, other_segment: &PathSegment) -> (r: bool)
        ensures
            r == spec_identical(self@, other_segment@),
    {
        let n = self.names.len();
        if n != other_segment.names.len() {
            return false;
        }
        let mut i: usize = 0;
        while i < n
            invariant
                n == self@.len(),
                n == other_segment@.len(),
                n == self.names@.len(),
                n == other_segment.names@.len(),
                i <= n,
                forall|k: int| 0 <= k < i ==> ci_eq(self@[k], other_segment@[k]),
            decreases n - i,
        {
            proof {
                assert(self@[i as int] == self.names@[i as int]@);
                assert(other_segment@[i as int] == other_segment.names@[i as int]@);
            }
            if !name_ci_eq(&self.names[i], &other_segment.names[i]) {
                return false;
            }
            i = i + 1;
        }
        true
    }
}

/// Splits a path string into its nonempty segment names.
pub(crate) fn split_segments(s: &str) -> (r: Vec<String>)
    ensures
        r@.map_values(|x: String| x@) =~= decompose(s@),
{
    let chars = chars_of(s);
    let n = chars.len();
    let mut done: Vec<String> = Vec::new();
    let mut cur: String = String::new();
    let mut i: usize = 0;
    while i < n
        invariant
            chars@ == s@,
            n == s@.len(),
            i <= n,
            done@.map_values(|x: String| x@) =~= scan_segments(s@.take(i as int)).0,
            cur@ =~= scan_segments(s@.take(i as int)).1,
        decreases n - i,
    {
        let c = chars[i];
        proof {
            assert(s@.take(i + 1 as int).drop_last() =~= s@.take(i as int));
            assert(s@.take(i + 1 as int).last() == s@[i as int]);
        }
        if c == '/' || c == '\\' {
            if !cur.as_str().is_empty() {
                let ghost old_done = done@;
                let ghost old_cur = cur@;
                done.push(cur);
                cur = String::new();
                proof {
                    assert(done@.map_values(|x: String| x@) =~= old_done.map_values(
                        |x: String| x@,
                    ).push(old_cur));
                }
            }
        } else {
            push_char(&mut cur, c);
        }
        i = i + 1;
    }
    proof {
        assert(s@.take(n as int) =~= s@);
    }
    if !cur.as_str().is_empty() {
        let ghost old_done = done@;
        let ghost old_cur = cur@;
        done.push(cur);
        proof {
            assert(done@.map_values(|x: String| x@) =~= old_done.map_values(|x: String| x@).push(
                old_cur,
            ));
        }
    }
    done
}

/// A parsed path: the decomposed segment sequence, or nothing when the path
/// held no nonempty component.
pub struct PathParser {
    segment: Option<PathSegment>,
}

impl View for PathParser {
    type V = Seq<Seq<char>>;

    closed spec fn view(&self) -> Seq<Seq<char>> {
        match self.segment {
            Some(seg) => seg@,
            None => Seq::empty(),
        }
    }
}

impl PathParser {
    pub closed spec fn wf(&self) -> bool {
        match self.segment {
            Some(seg) => seg.wf(),
            None => true,
        }
    }

    /// The parser holds at least one component.
    pub closed spec fn has_segment(&self) -> bool {
        self.segment is Some
    }

    /// Decomposes `path` on `/` and `\`, dropping empty components.
    pub fn new(path: &String) -> (r: PathParser)
        ensures
            r@ =~= decompose(path@),
            r.wf(),
            r.has_segment() <==> decompose(path@).len() > 0,
    {
        let names = split_segments(path.as_str());
        proof {
            lemma_decompose_wf(path@);
        }
        if names.len() == 0 {
            PathParser { segment: None }
        } else {
            let seg = PathSegment { names };
            proof {
                assert(seg.wf());
            }
            PathParser { segment: Some(seg) }
        }
    }

    /// The held segment sequence.  The parser must hold one; parsing a path
    /// with no component gives a parser with none.
    pub fn get_segment(&self) -> (r: Box<PathSegment>)
        requires
            self.has_segment(),
        ensures
            r@ =~= self@,
            self.wf() ==> r.wf(),
    {
        match &self.segment {
            Some(seg) => {
                let names = clone_string_vec(&seg.names);
                let out = PathSegment { names };
                proof {
                    assert(out@ =~= seg@);
                }
                Box::new(out)
            },
            None => unreached(),
        }
    }

    /// The relative suffix of `p` with respect to `self`: the components of
    /// `p` from the first position that does not match `self`
    /// case-insensitively, or `None` when `p` is exhausted first.
    pub fn get_differing_segment(&self, p: PathParser) -> (r: Option<Box<PathSegment>>)
        requires
            self.has_segment(),
            p.has_segment(),
            p.wf(),
        ensures
            match r {
                Some(seg) => {
                    &&& spec_differing(self@, p@) == Some(seg@)
                    &&& seg.wf()
                },
                None => spec_differing(self@, p@) is None,
            },
    {
        let my = match &self.segment {
            Some(seg) => seg,
            None => unreached(),
        };
        let other = match &p.segment {
            Some(seg) => seg,
            None => unreached(),
        };
        let myn = my.names.len();
        let on = other.names.len();
        let mut i: usize = 0;
        loop
            invariant
                myn == self@.len(),
                on == p@.len(),
                myn == my.names@.len(),
                on == other.names@.len(),
                my.names@.map_values(|s: String| s@) == self@,
                other.names@.map_values(|s: String| s@) == p@,
                i <= myn,
                i <= on,
                forall|k: int| 0 <= k < i ==> ci_eq(self@[k], p@[k]),
            ensures
                i <= myn,
                i <= on,
                forall|k: int| 0 <= k < i ==> ci_eq(self@[k], p@[k]),
                i < myn && i < on ==> !ci_eq(self@[i as int], p@[i as int]),
                i == myn || i == on || !ci_eq(self@[i as int], p@[i as int]),
            decreases myn - i,
        {
            if i >= myn || i >= on {
                break;
            }
            proof {
                assert(self@[i as int] == my.names@[i as int]@);
                assert(p@[i as int] == other.names@[i as int]@);
            }
            if !name_ci_eq(&my.names[i], &other.names[i]) {
                break;
            }
            i = i + 1;
        }
        proof {
            lemma_differing_from_index(self@, p@, i as int);
        }
        if i < on {
            let mut names: Vec<String> = Vec::new();
            let mut j: usize = i;
            while j < on
                invariant
                    on == other.names@.len(),
                    i <= j <= on,
                    names@ =~= other.names@.subrange(i as int, j as int),
                decreases on - j,
            {
                let s: &String = &other.names[j];
                names.push(s.clone());
                proof {
                    assert(other.names@.subrange(i as int, j + 1 as int) =~= other.names@.subrange(
                        i as int,
                        j as int,
                    ).push(other.names@[j as int]));
                }
                j = j + 1;
            }
            let seg = PathSegment { names };
            proof {
                assert(seg@ =~= p@.skip(i as int));
            }
            Some(Box::new(seg))
        } else {
            None
        }
    }

    /// Concatenation: the components of `self` followed by the decomposition
    /// of `new_segment`.
    pub fn append_segment(&self, new_segment: &String) -> (r: PathParser)
        requires
            self.has_segment(),
            decompose(new_segment@).len() > 0,
        ensures
            r@ =~= self@ + decompose(new_segment@),
            self.wf() ==> r.wf(),
            r.has_segment(),
    {
        let my = match &self.segment {
            Some(seg) => seg,
            None => unreached(),
        };
        let mut names = clone_string_vec(&my.names);
        let mut extra = split_segments(new_segment.as_str());
        names.append(&mut extra);
        let seg = PathSegment { names };
        proof {
            lemma_decompose_wf(new_segment@);
            assert(seg@ =~= self@ + decompose(new_segment@));
        }
        PathParser { segment: Some(seg) }
    }
}

/// If components match pairwise below `i` and `i` is where the walk stopped,
/// the suffix starts at `i`.
proof fn lemma_differing_from_index(base: Seq<Seq<char>>, full: Seq<Seq<char>>, i: int)
    requires
        0 <= i <= base.len(),
        i <= full.len(),
        forall|k: int| 0 <= k < i ==> ci_eq(base[k], full[k]),
        i < base.len() && i < full.len() ==> !ci_eq(base[i], full[i]),
    ensures
        spec_differing(base, full) == if i < full.len() {
            Some(full.skip(i))
        } else {
            Option::<Seq<Seq<char>>>::None
        },
    decreases i,
{
    if i == 0 {
        if full.len() == 0 {
        } else if base.len() == 0 {
            assert(full.skip(0) =~= full);
        } else {
            assert(!ci_eq(base[0], full[0]));
            assert(full.skip(0) =~= full);
        }
    } else {
        assert(ci_eq(base[0], full[0]));
        lemma_differing_from_index(base.drop_first(), full.drop_first(), i - 1);
        if i < full.len() {
            assert(full.drop_first().skip(i - 1) =~= full.skip(i));
        }
    }
}

/// Appending separator-free characters extends the open segment and leaves
/// the completed segments alone.
proof fn lemma_scan_append_name(s: Seq<char>, name: Seq<char>)
    requires
        forall|j: int| 0 <= j < name.len() ==> !is_sep(name[j]),
    ensures
        scan_segments(s + name).0 =~= scan_segments(s).0,
        scan_segments(s + name).1 =~= scan_segments(s).1 + name,
    decreases name.len(),
{
    if name.len() == 0 {
        assert(s + name =~= s);
        assert(scan_segments(s).1 + name =~= scan_segments(s).1);
    } else {
        lemma_scan_append_name(s, name.drop_last());
        let t = s + name.drop_last();
        let c = name.last();
        assert(s + name =~= t.push(c));
        assert((t.push(c)).drop_last() =~= t);
        assert((t.push(c)).drop_last() == t);
        assert(!is_sep(c));
        assert(scan_segments(t.push(c)).0 == scan_segments(t).0);
        assert(scan_segments(t.push(c)).1 == scan_segments(t).1.push(c));
        assert(scan_segments(s).1 + name =~= (scan_segments(s).1 + name.drop_last()).push(c));
    }
}

/// Scanning the join of well-formed names leaves the last name open and the
/// others completed.
proof fn lemma_join_scan(names: Seq<Seq<char>>)
    requires
        names.len() > 0,
        forall|i: int| 0 <= i < names.len() ==> seg_name_wf(#[trigger] names[i]),
    ensures
        scan_segments(join_with(names, UNIX_SPLITTER)).0 =~= names.drop_last(),
        scan_segments(join_with(names, UNIX_SPLITTER)).1 =~= names.last(),
    decreases names.len(),
{
    if names.len() == 1 {
        assert(join_with(names, UNIX_SPLITTER) == names[0]);
        assert(seg_name_wf(names[0]));
        lemma_scan_append_name(Seq::empty(), names[0]);
        assert(Seq::<char>::empty() + names[0] =~= names[0]);
        assert(Seq::<char>::empty() + names[0] == names[0]);
        assert(scan_segments(names[0]).1 =~= names.last());
        assert(scan_segments(names[0]).0 =~= names.drop_last());
    } else {
        assert(forall|i: int|
            0 <= i < names.drop_last().len() ==> seg_name_wf(#[trigger] names.drop_last()[i]));
        lemma_join_scan(names.drop_last());
        let j0 = join_with(names.drop_last(), UNIX_SPLITTER);
        let j1 = j0.push(UNIX_SPLITTER);
        assert(j1.drop_last() =~= j0);
        assert(j1.drop_last() == j0);
        assert(is_sep(UNIX_SPLITTER));
        assert(seg_name_wf(names.drop_last().last()));
        assert(scan_segments(j0).1.len() > 0);
        assert(scan_segments(j1).0 == scan_segments(j0).0.push(scan_segments(j0).1));
        assert(scan_segments(j1).0 =~= names.drop_last());
        assert(scan_segments(j1).1 =~= Seq::<char>::empty());
        assert(seg_name_wf(names.last()));
        lemma_scan_append_name(j1, names.last());
        assert(join_with(names, UNIX_SPLITTER) == j1 + names.last());
        assert(scan_segments(j1 + names.last()).0 =~= scan_segments(j1).0);
        assert(scan_segments(j1 + names.last()).1 =~= scan_segments(j1).1 + names.last());
        assert(scan_segments(j1).1 + names.last() =~= names.last());
    }
}

/// Round trip: decomposing the join of well-formed names gives the names
/// back.
pub proof fn lemma_decompose_join(names: Seq<Seq<char>>)
    requires
        forall|i: int| 0 <= i < names.len() ==> seg_name_wf(#[trigger] names[i]),
    ensures
        decompose(join_with(names, UNIX_SPLITTER)) =~= names,
{
    if names.len() == 0 {
        assert(join_with(names, UNIX_SPLITTER) == Seq::<char>::empty());
    } else {
        lemma_join_scan(names);
        assert(seg_name_wf(names.last()));
        assert(scan_segments(join_with(names, UNIX_SPLITTER)).1.len() > 0);
        assert(decompose(join_with(names, UNIX_SPLITTER)) =~= scan_segments(
            join_with(names, UNIX_SPLITTER),
        ).0.push(scan_segments(join_with(names, UNIX_SPLITTER)).1));
    }
}

/// The index of the last `.` in `comp`, or a negative value when there is
/// none.
pub open spec fn last_dot_index(comp: Seq<char>) -> int
    decreases comp.len(),
{
    if comp.len() == 0 {
        -1
    } else if comp.last() == '.' {
        comp.len() - 1
    } else {
        last_dot_index(comp.drop_last())
    }
}

/// When no `.` occurs at or after position `m`, the last dot lies in the
/// prefix below `m`.
proof fn lemma_last_dot_prefix(comp: Seq<char>, m: int)
    requires
        0 <= m <= comp.len(),
        forall|j: int| m <= j < comp.len() ==> comp[j] != '.',
    ensures
        last_dot_index(comp) == last_dot_index(comp.take(m)),
    decreases comp.len() - m,
{
    if m == comp.len() {
        assert(comp.take(m) =~= comp);
        assert(comp.take(m) == comp);
    } else {
        lemma_last_dot_prefix(comp, m + 1);
        assert(comp.take(m + 1).drop_last() =~= comp.take(m));
        assert(comp.take(m + 1).drop_last() == comp.take(m));
        assert(comp.take(m + 1).last() == comp[m]);
    }
}

/// The extension of a path component: a component that starts with a dot is
/// a "dotfile" and its extension is the component with every dot removed;
/// otherwise the extension is what follows the last dot, if any.
pub open spec fn spec_extension_of(comp: Seq<char>) -> Option<Seq<char>> {
    if comp.len() > 0 && comp[0] == '.' {
        Some(comp.filter(|c: char| c != '.'))
    } else if last_dot_index(comp) >= 0 {
        Some(comp.skip(last_dot_index(comp) + 1))
    } else {
        None
    }
}

/// The file name of a path component: the component itself, unless it is a
/// dotfile.
pub open spec fn spec_filename_of(comp: Seq<char>) -> Option<Seq<char>> {
    if comp.len() > 0 && comp[0] == '.' {
        None
    } else {
        Some(comp)
    }
}

/// The view of an optional owned string.
pub open spec fn opt_str_view(o: Option<String>) -> Option<Seq<char>> {
    match o {
        Some(s) => Some(s@),
        None => None,
    }
}

/// Computes the extension and the file name of one path component.
fn extension_of_component(comp: &String) -> (r: (Option<String>, Option<String>))
    ensures
        opt_str_view(r.0) == spec_extension_of(comp@),
        opt_str_view(r.1) == spec_filename_of(comp@),
{
    let chars = chars_of(comp.as_str());
    let n = chars.len();
    if n > 0 && chars[0] == '.' {
        let mut out = String::new();
        let mut i: usize = 0;
        while i < n
            invariant
                chars@ == comp@,
                n == comp@.len(),
                i <= n,
                out@ =~= comp@.take(i as int).filter(|c: char| c != '.'),
            decreases n - i,
        {
            let c = chars[i];
            proof {
                assert(comp@.take(i + 1 as int).drop_last() =~= comp@.take(i as int));
                assert(comp@.take(i + 1 as int).drop_last() == comp@.take(i as int));
                assert(comp@.take(i + 1 as int).last() == comp@[i as int]);
                reveal_with_fuel(Seq::filter, 2);
            }
            if c != '.' {
                push_char(&mut out, c);
            }
            i = i + 1;
        }
        proof {
            assert(comp@.take(n as int) =~= comp@);
            assert(comp@.take(n as int) == comp@);
        }
        (Some(out), None)
    } else {
        let mut m: usize = n;
        loop
            invariant
                chars@ == comp@,
                n == comp@.len(),
                m <= n,
                forall|j: int| m <= j < n ==> comp@[j] != '.',
            ensures
                m <= n,
                forall|j: int| m <= j < n ==> comp@[j] != '.',
                m > 0 ==> comp@[m - 1] == '.',
                m == 0 ==> forall|j: int| 0 <= j < n ==> comp@[j] != '.',
            decreases m,
        {
            if m == 0 {
                break;
            }
            if chars[m - 1] == '.' {
                break;
            }
            m = m - 1;
        }
        proof {
            lemma_last_dot_prefix(comp@, m as int);
        }
        if m > 0 {
            proof {
                assert(comp@.take(m as int).last() == comp@[m - 1]);
                assert(last_dot_index(comp@) == m - 1);
            }
            let e = comp.as_str().substring_char(m, n).to_owned();
            proof {
                assert(e@ =~= comp@.skip(last_dot_index(comp@) + 1));
            }
            (Some(e), Some(comp.clone()))
        } else {
            proof {
                assert(comp@.take(0int) =~= Seq::<char>::empty());
                assert(comp@.take(0int) == Seq::<char>::empty());
                assert(last_dot_index(comp@) == -1);
            }
            (None, Some(comp.clone()))
        }
    }
}

/// The mathematical view of one filesystem entry.
#[verifier::ext_equal]
pub struct FileRecordView {
    pub segment: Option<Seq<Seq<char>>>,
    pub is_file: bool,
    pub is_unc_path: bool,
    pub size: u64,
    pub modified: u64,
    pub path: Seq<char>,
    pub extension: Option<Seq<char>>,
    pub filename: Option<Seq<char>>,
    pub content_hash: Option<Seq<char>>,
}

/// A usable record: its relative segment sequence exists and is well formed.
pub open spec fn record_wf(f: FileRecordView) -> bool {
    &&& f.segment is Some
    &&& f.segment->0.len() > 0
    &&& forall|i: int| 0 <= i < f.segment->0.len() ==> seg_name_wf(#[trigger] f.segment->0[i])
}

/// One filesystem entry: its relative segment sequence (against the owning
/// root), plain metadata, and name parts.  The caller that walked the
/// directory supplies size, modified tick and kind; an optional content hash
/// accompanies the record when hash comparison is configured.
pub struct FileInfoParser {
    pub segment: Option<PathSegment>,
    pub is_file: bool,
    pub is_unc_path: bool,
    pub size: u64,
    pub modified: u64,
    pub path: String,
    pub extension: Option<String>,
    pub filename: Option<String>,
    pub content_hash: Option<String>,
}

impl View for FileInfoParser {
    type V = FileRecordView;

    open spec fn view(&self) -> FileRecordView {
        FileRecordView {
            segment: match self.segment {
                Some(seg) => Some(seg@),
                None => None,
            },
            is_file: self.is_file,
            is_unc_path: self.is_unc_path,
            size: self.size,
            modified: self.modified,
            path: self.path@,
            extension: opt_str_view(self.extension),
            filename: opt_str_view(self.filename),
            content_hash: opt_str_view(self.content_hash),
        }
    }
}

/// The record that `FileInfoParser::new` builds from the given parts.
pub open spec fn spec_new_record(
    path: Seq<char>,
    base: Seq<char>,
    is_file: bool,
    size: u64,
    modified: u64,
    content_hash: Option<Seq<char>>,
) -> FileRecordView {
    FileRecordView {
        segment: spec_differing(decompose(base), decompose(path)),
        is_file: is_file,
        is_unc_path: crate::utilities::spec_path_is_unc(base),
        size: size,
        modified: modified,
        path: path,
        extension: spec_extension_of(decompose(path).last()),
        filename: spec_filename_of(decompose(path).last()),
        content_hash: content_hash,
    }
}

/// Clones an optional string, value for value.
fn clone_opt_string(o: &Option<String>) -> (r: Option<String>)
    ensures
        opt_str_view(r) == opt_str_view(*o),
{
    match o {
        Some(s) => Some(s.clone()),
        None => None,
    }
}

impl Clone for FileInfoParser {
    /// Cloning preserves the record's view.
    fn clone(&self) -> (r: Self)
        ensures
            r@ == self@,
    {
        let r = FileInfoParser {
            segment: match &self.segment {
                Some(seg) => Some(PathSegment { names: clone_string_vec(&seg.names) }),
                None => None,
            },
            is_file: self.is_file,
            is_unc_path: self.is_unc_path,
            size: self.size,
            modified: self.modified,
            path: self.path.clone(),
            extension: clone_opt_string(&self.extension),
            filename: clone_opt_string(&self.filename),
            content_hash: clone_opt_string(&self.content_hash),
        };
        proof {
            assert(r@ =~= self@);
        }
        r
    }
}

impl FileInfoParser {
    /// Builds the record for the entry at `path` under `base_directory`.
    /// The walking caller supplies the entry's kind, size, modified tick and,
    /// when hash comparison is wanted, its content hash.
    pub fn new(
        path: &String,
        base_directory: &String,
        is_file: bool,
        size: u64,
        modified: u64,
        content_hash: Option<String>,
    ) -> (r: FileInfoParser)
        requires
            decompose(base_directory@).len() > 0,
            decompose(path@).len() > 0,
        ensures
            r@ =~= spec_new_record(
                path@,
                base_directory@,
                is_file,
                size,
                modified,
                opt_str_view(content_hash),
            ),
            r@.segment is Some ==> record_wf(r@),
    {
        let base_parser = PathParser::new(base_directory);
        let sub_parser = PathParser::new(path);
        let comp: String = match &sub_parser.segment {
            Some(seg) => {
                let k = seg.names.len() - 1;
                proof {
                    assert(seg@[k as int] == seg.names@[k as int]@);
                    assert(seg@.last() == decompose(path@).last());
                }
                let s: &String = &seg.names[k];
                s.clone()
            },
            None => unreached(),
        };
        let (extension, filename) = extension_of_component(&comp);
        let is_unc = crate::utilities::path_is_unc(base_directory);
        let seg = base_parser.get_differing_segment(sub_parser);
        let segment: Option<PathSegment> = match seg {
            Some(b) => Some(*b),
            None => None,
        };
        let r = FileInfoParser {
            segment,
            is_file,
            is_unc_path: is_unc,
            size,
            modified,
            path: path.clone(),
            extension,
            filename,
            content_hash,
        };
        proof {
            assert(r@ =~= spec_new_record(
                path@,
                base_directory@,
                is_file,
                size,
                modified,
                opt_str_view(content_hash),
            ));
        }
        r
    }

    /// The absolute path the record was built from.
    pub fn get_path(&self) -> (r: String)
        ensures
            r@ == self@.path,
    {
        self.path.clone()
    }

    /// The relative segment sequence.  The record must hold one; an entry
    /// equal to its own root holds none.
    pub fn get_segment(&self) -> (r: Box<PathSegment>)
        requires
            self@.segment is Some,
        ensures
            r@ == self@.segment->0,
    {
        match &self.segment {
            Some(seg) => {
                let names = clone_string_vec(&seg.names);
                let out = PathSegment { names };
                proof {
                    assert(out@ =~= seg@);
                }
                Box::new(out)
            },
            None => unreached(),
        }
    }

    /// Whether the record passes the extension allow-list: directories
    /// always pass, a file passes when its extension is listed or the list
    /// is empty, and a file without an extension never passes.
    pub fn match_extension(&self, extensions: Vec<String>) -> (r: bool)
        ensures
            r == spec_match_extension(self@, extensions@.map_values(|s: String| s@)),
    {
        if !self.is_file {
            return true;
        }
        match &self.extension {
            Some(extension) => crate::utilities::match_list_or_all(extension, extensions),
            None => false,
        }
    }
}

/// The extension allow-list applied to one record.
pub open spec fn spec_match_extension(f: FileRecordView, exts: Seq<Seq<char>>) -> bool {
    if !f.is_file {
        true
    } else {
        match f.extension {
            Some(e) => crate::utilities::spec_match_list_or_all(e, exts),
            None => false,
        }
    }
}

/// The kind of change an action applies.
#[derive(Clone, Copy, PartialEq, Eq, Structural, Debug)]
pub enum ActionType {
    Create,
    Update,
    Delete,
}

/// How one position of two zipped segment sequences compares.
#[derive(Clone, Debug)]
pub enum MatchType<First, Second> {
    Match(First, Second),
    NoMatch(First, Second),
    OnlyOneLeft(First),
    OnlyOneRight(Second),
}

/// The mathematical view of one classified action.
#[verifier::ext_equal]
pub struct ActionView {
    pub source: Option<FileRecordView>,
    pub destination: Option<FileRecordView>,
    pub action_type: ActionType,
}

/// A classified change: a create carries the source record, a delete the
/// destination record, an update both.
pub struct FileInfoParserAction {
    pub source: Option<FileInfoParser>,
    pub destination: Option<FileInfoParser>,
    pub action_type: ActionType,
}

/// The view of an optional record.
pub open spec fn opt_record_view(o: Option<FileInfoParser>) -> Option<FileRecordView> {
    match o {
        Some(f) => Some(f@),
        None => None,
    }
}

impl View for FileInfoParserAction {
    type V = ActionView;

    open spec fn view(&self) -> ActionView {
        ActionView {
            source: opt_record_view(self.source),
            destination: opt_record_view(self.destination),
            action_type: self.action_type,
        }
    }
}

/// A well-formed action carries the records its kind demands.
pub open spec fn action_wf(a: ActionView) -> bool {
    match a.action_type {
        ActionType::Create => a.source is Some && record_wf(a.source->0) && a.destination is None,
        ActionType::Update => a.source is Some && record_wf(a.source->0) && a.destination is Some
            && record_wf(a.destination->0),
        ActionType::Delete => a.destination is Some && record_wf(a.destination->0)
            && a.source is None,
    }
}

/// The depth an action is ordered by: the component count of its source
/// record's segments, or of its destination's when it has no source.
pub open spec fn spec_action_depth(a: ActionView) -> int {
    match a.source {
        Some(f) => match f.segment {
            Some(seg) => seg.len() as int,
            None => 0,
        },
        None => match a.destination {
            Some(g) => match g.segment {
                Some(seg) => seg.len() as int,
                None => 0,
            },
            None => 0,
        },
    }
}

/// Clones an optional record, view for view.
fn clone_opt_record(o: &Option<FileInfoParser>) -> (r: Option<FileInfoParser>)
    ensures
        opt_record_view(r) == opt_record_view(*o),
{
    match o {
        Some(f) => Some(f.clone()),
        None => None,
    }
}

impl Clone for FileInfoParserAction {
    /// Cloning preserves the action's view.
    fn clone(&self) -> (r: Self)
        ensures
            r@ == self@,
    {
        let r = FileInfoParserAction {
            source: clone_opt_record(&self.source),
            destination: clone_opt_record(&self.destination),
            action_type: self.action_type,
        };
        proof {
            assert(r@ =~= self@);
        }
        r
    }
}

impl FileInfoParserAction {
    /// An action that carries both records.
    pub fn new(source: FileInfoParser, dest: FileInfoParser, t: ActionType) -> (r:
        FileInfoParserAction)
        ensures
            r@.source == Some(source@),
            r@.destination == Some(dest@),
            r@.action_type == t,
    {
        FileInfoParserAction { source: Some(source), destination: Some(dest), action_type: t }
    }

    /// An action that carries only a source record.
    pub fn new_source(source: FileInfoParser, t: ActionType) -> (r: FileInfoParserAction)
        ensures
            r@.source == Some(source@),
            r@.destination is None,
            r@.action_type == t,
    {
        FileInfoParserAction { source: Some(source), destination: None, action_type: t }
    }

    /// An action that carries only a destination record.
    pub fn new_destination(dest: FileInfoParser, t: ActionType) -> (r: FileInfoParserAction)
        ensures
            r@.source is None,
            r@.destination == Some(dest@),
            r@.action_type == t,
    {
        FileInfoParserAction { source: None, destination: Some(dest), action_type: t }
    }

    /// The character length of the source record's path.
    pub fn get_source_length(&self) -> (r: usize)
        requires
            self@.source is Some,
        ensures
            r == self@.source->0.path.len(),
    {
        match &self.source {
            Some(f) => f.path.as_str().unicode_len(),
            None => unreached(),
        }
    }

    /// The character length of the destination record's path.
    pub fn get_destination_length(&self) -> (r: usize)
        requires
            self@.destination is Some,
        ensures
            r == self@.destination->0.path.len(),
    {
        match &self.destination {
            Some(f) => f.path.as_str().unicode_len(),
            None => unreached(),
        }
    }

    /// The number of components of the record the action is ordered by.
    pub fn get_depth(&self) -> (r: usize)
        ensures
            r as int == spec_action_depth(self@),
    {
        match &self.source {
            Some(f) => match &f.segment {
                Some(seg) => seg.names.len(),
                None => 0,
            },
            None => match &self.destination {
                Some(g) => match &g.segment {
                    Some(seg) => seg.names.len(),
                    None => 0,
                },
                None => 0,
            },
        }
    }

    /// The destination path of this action's source record under
    /// `target_directory`: the target root's components followed by the
    /// record's relative components, joined with the default separator.
    pub fn get_destination_from_segment(&self, target_directory: &String) -> (r: String)
        requires
            self@.source is Some,
            record_wf(self@.source->0),
            decompose(target_directory@).len() > 0,
        ensures
            r@ == join_with(
                decompose(target_directory@) + self@.source->0.segment->0,
                UNIX_SPLITTER,
            ),
    {
        let mut pp = PathParser::new(target_directory);
        let source = match &self.source {
            Some(f) => f,
            None => unreached(),
        };
        let segment_string = source.get_segment().get_default_segment_string();
        proof {
            lemma_decompose_join(self@.source->0.segment->0);
            assert(decompose(segment_string@) =~= self@.source->0.segment->0);
            assert(decompose(segment_string@) == self@.source->0.segment->0);
        }
        pp = pp.append_segment(&segment_string);
        let destination_segment = pp.get_segment().get_default_segment_string();
        proof {
            assert(decompose(target_directory@) + decompose(segment_string@)
                == decompose(target_directory@) + self@.source->0.segment->0);
        }
        destination_segment
    }
}

/// The mathematical view of one action list.
#[verifier::ext_equal]
pub struct ActionListView {
    pub source_directory: Seq<char>,
    pub target_directory: Seq<char>,
    pub actions: Seq<ActionView>,
}

/// The classified actions for one source/target root pair.
pub struct FileInfoParserActionList {
    pub source_directory: String,
    pub target_directory: String,
    pub actions: Vec<FileInfoParserAction>,
}

impl View for FileInfoParserActionList {
    type V = ActionListView;

    open spec fn view(&self) -> ActionListView {
        ActionListView {
            source_directory: self.source_directory@,
            target_directory: self.target_directory@,
            actions: self.actions@.map_values(|a: FileInfoParserAction| a@),
        }
    }
}


/// The view exposes the public fields of a record unchanged.
pub proof fn lemma_record_public_fields(f: FileInfoParser)
    ensures
        f@.is_file == f.is_file,
        f@.is_unc_path == f.is_unc_path,
        f@.size == f.size,
        f@.modified == f.modified,
        f@.path == f.path@,
        f@.extension == opt_str_view(f.extension),
        f@.filename == opt_str_view(f.filename),
        f@.content_hash == opt_str_view(f.content_hash),
{
}


/// The views of a sequence of records.
pub open spec fn rec_views(items: Seq<FileInfoParser>) -> Seq<FileRecordView> {
    items.map_values(|f: FileInfoParser| f@)
}

/// The views of a sequence of actions.
pub open spec fn act_views(items: Seq<FileInfoParserAction>) -> Seq<ActionView> {
    items.map_values(|a: FileInfoParserAction| a@)
}

/// All records are usable.
pub open spec fn records_wf(items: Seq<FileRecordView>) -> bool {
    forall|i: int| 0 <= i < items.len() ==> record_wf(#[trigger] items[i])
}

/// All actions carry the records their kinds demand.
pub open spec fn actions_wf(items: Seq<ActionView>) -> bool {
    forall|i: int| 0 <= i < items.len() ==> action_wf(#[trigger] items[i])
}


} // verus!
