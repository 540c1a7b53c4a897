//! The canonical identifier type used to address every page and section.
//!
//! A [`Uri`] is an ordered sequence of path segments; the empty sequence is
//! the root. Every segment is non-empty, consists only of ASCII alphanumeric
//! characters, `-`, `_` and `.`, and is never the reserved name `.` or `..`.
//! The canonical string form — `/` for the root, otherwise the segments each
//! prefixed with `/` — is the single source of truth for equality: two
//! identifiers are equal exactly when their canonical strings are.

use crate::error::Error;
use vstd::prelude::*;

verus! {

/// The mathematical shape of an identifier: its segments, as char sequences.
pub type Segs = Seq<Seq<char>>;

/// A character is allowed inside a segment when it is ASCII alphanumeric or
/// one of `-`, `_`, `.`.
pub open spec fn is_segment_char(c: char) -> bool {
    ('a' <= c && c <= 'z') || ('A' <= c && c <= 'Z') || ('0' <= c && c <= '9') || c == '-'
        || c == '_' || c == '.'
}

/// A segment is valid when it is non-empty, made of allowed characters only,
/// and is not one of the reserved names `.` and `..`.
pub open spec fn is_valid_segment(s: Seq<char>) -> bool {
    &&& s.len() > 0
    &&& (forall|i: int| 0 <= i < s.len() ==> is_segment_char(#[trigger] s[i]))
    &&& s != seq!['.']
    &&& s != seq!['.', '.']
}

/// Every segment of the list is valid.
pub open spec fn segs_wf(v: Segs) -> bool {
    forall|i: int| 0 <= i < v.len() ==> is_valid_segment(#[trigger] v[i])
}

/// The segments each prefixed by `/` and concatenated; empty for the root.
pub open spec fn canon_of(v: Segs) -> Seq<char>
    decreases v.len(),
{
    if v.len() == 0 {
        Seq::empty()
    } else {
        canon_of(v.drop_last()) + seq!['/'] + v.last()
    }
}

/// The canonical string form: `/` for the root, else [`canon_of`].
pub open spec fn canonical_of(v: Segs) -> Seq<char> {
    if v.len() == 0 {
        seq!['/']
    } else {
        canon_of(v)
    }
}

/// Decides [`is_valid_segment`] for a string slice.
pub fn valid_segment(s: &str) -> (r: bool)
    ensures
        r == is_valid_segment(s@),
{
    let n = s.unicode_len();
    if n == 0 {
        return false;
    }
    let mut i: usize = 0;
    while i < n
        invariant
            0 <= i <= n,
            n == s@.len(),
            forall|j: int| 0 <= j < i ==> is_segment_char(#[trigger] s@[j]),
        decreases n - i,
    {
        let c = s.get_char(i);
        let ok = ('a' <= c && c <= 'z') || ('A' <= c && c <= 'Z') || ('0' <= c && c <= '9')
            || c == '-' || c == '_' || c == '.';
        if !ok {
            return false;
        }
        i = i + 1;
    }
    if n == 1 && s.get_char(0) == '.' {
        proof {
            assert(s@ =~= seq!['.']);
        }
        return false;
    }
    if n == 2 && s.get_char(0) == '.' && s.get_char(1) == '.' {
        proof {
            assert(s@ =~= seq!['.', '.']);
        }
        return false;
    }
    proof {
        assert(s@ != seq!['.'] && s@ != seq!['.', '.']) by {
            if s@ == seq!['.'] {
                assert(s@.len() == 1 && s@[0] == '.');
            }
            if s@ == seq!['.', '.'] {
                assert(s@.len() == 2 && s@[0] == '.' && s@[1] == '.');
            }
        }
    }
    true
}

/// A validated identifier for a page or section, independent of filesystem
/// layout. The empty segment list is the root, written `/`.
#[derive(Debug)]
pub struct Uri {
    segments: Vec<String>,
}

impl View for Uri {
    type V = Segs;

    closed spec fn view(&self) -> Segs {
        self.segments.deep_view()
    }
}

impl DeepView for Uri {
    type V = Segs;

    open spec fn deep_view(&self) -> Segs {
        self.view()
    }
}

impl Uri {
    /// Every segment of this identifier is valid.
    pub open spec fn wf(&self) -> bool {
        segs_wf(self@)
    }

    /// Creates the root identifier, `/`.
    pub fn new() -> (u: Uri)
        ensures
            u@ == Seq::<Seq<char>>::empty(),
            u.wf(),
    {
        let u = Uri { segments: Vec::new() };
        proof {
            assert(u@ =~= Seq::<Seq<char>>::empty());
        }
        u
    }

    /// Copies the first `k` segments into a fresh vector.
    fn clone_prefix(&self, k: usize) -> (v: Vec<String>)
        requires
            k <= self.segments.len(),
        ensures
            v.deep_view() == self@.subrange(0, k as int),
    {
        let mut v: Vec<String> = Vec::new();
        let mut i: usize = 0;
        while i < k
            invariant
                0 <= i <= k <= self.segments.len(),
                v@.len() == i,
                forall|j: int| 0 <= j < i ==> v@[j] == self.segments@[j],
            decreases k - i,
        {
            v.push(self.segments[i].clone());
            i = i + 1;
        }
        proof {
            assert(v.deep_view().len() == k);
            assert forall|j: int| 0 <= j < k implies #[trigger] v.deep_view()[j] == self@.subrange(
                0,
                k as int,
            )[j] by {
                assert(v@[j] == self.segments@[j]);
                assert(v.deep_view()[j] == v@[j].deep_view());
                assert(self@[j] == self.segments@[j].deep_view());
            }
            assert(v.deep_view() =~= self@.subrange(0, k as int));
        }
        v
    }

    /// Decides whether every entry of a segment list is a valid segment.
    /// A list with an absolute component (such as `/`), a reserved name or an
    /// illegal character is rejected.
    pub fn valid_path(segments: &Vec<String>) -> (r: bool)
        ensures
            r == segs_wf(segments.deep_view()),
    {
        let mut i: usize = 0;
        while i < segments.len()
            invariant
                0 <= i <= segments.len(),
                forall|j: int|
                    0 <= j < i ==> is_valid_segment(#[trigger] segments.deep_view()[j]),
            decreases segments.len() - i,
        {
            if !valid_segment(segments[i].as_str()) {
                proof {
                    assert(!is_valid_segment(segments.deep_view()[i as int]));
                }
                return false;
            }
            i = i + 1;
        }
        true
    }

    /// Returns a new identifier with `segment` appended, or fails with
    /// [`Error::InvalidSegment`] exactly when the segment is empty, reserved
    /// or contains an illegal character. Never mutates the receiver.
    pub fn join(&self, segment: &str) -> (r: Result<Uri, Error>)
        requires
            self.wf(),
        ensures
            r is Ok <==> is_valid_segment(segment@),
            r matches Ok(u) ==> u@ == self@.push(segment@) && u.wf(),
            r matches Err(e) ==> e matches Error::InvalidSegment(s) && s@ == segment@,
    {
        if valid_segment(segment) {
            let mut v = self.clone_prefix(self.segments.len());
            v.push(segment.to_owned());
            let u = Uri { segments: v };
            proof {
                assert(self@.subrange(0, self.segments.len() as int) =~= self@);
                assert(u@ =~= self@.push(segment@));
            }
            Ok(u)
        } else {
            Err(Error::InvalidSegment(segment.to_owned()))
        }
    }

    /// Returns the identifier of the enclosing section, or `None` on the root.
    pub fn parent(&self) -> (r: Option<Uri>)
        requires
            self.wf(),
        ensures
            self@.len() == 0 ==> r is None,
            self@.len() > 0 ==> (r matches Some(p) && p@ == self@.drop_last() && p.wf()),
    {
        let n = self.segments.len();
        if n == 0 {
            None
        } else {
            let v = self.clone_prefix(n - 1);
            let p = Uri { segments: v };
            proof {
                assert(p@ =~= self@.drop_last());
            }
            Some(p)
        }
    }

    /// Returns the proper prefixes of this identifier, shortest first: the
    /// root, then each longer ancestor, excluding the identifier itself.
    pub fn ancestors(&self) -> (r: Vec<Uri>)
        requires
            self.wf(),
        ensures
            r@.len() == self@.len(),
            forall|i: int| 0 <= i < r@.len() ==> (#[trigger] r@[i])@ == self@.subrange(0, i),
            forall|i: int| 0 <= i < r@.len() ==> (#[trigger] r@[i]).wf(),
    {
        let n = self.segments.len();
        let mut r: Vec<Uri> = Vec::new();
        let mut k: usize = 0;
        while k < n
            invariant
                0 <= k <= n,
                n == self.segments.len(),
                self.wf(),
                r@.len() == k,
                forall|i: int| 0 <= i < k ==> (#[trigger] r@[i])@ == self@.subrange(0, i),
                forall|i: int| 0 <= i < k ==> (#[trigger] r@[i]).wf(),
            decreases n - k,
        {
            let v = self.clone_prefix(k);
            r.push(Uri { segments: v });
            k = k + 1;
        }
        r
    }

    /// Whether this identifier is the root, `/`.
    pub fn is_root(&self) -> (r: bool)
        ensures
            r == (self@.len() == 0),
    {
        self.segments.len() == 0
    }

    /// Returns the last segment, or the empty string on the root.
    pub fn file_name(&self) -> (r: String)
        ensures
            self@.len() == 0 ==> r@ == Seq::<char>::empty(),
            self@.len() > 0 ==> r@ == self@.last(),
    {
        let n = self.segments.len();
        if n == 0 {
            String::new()
        } else {
            self.segments[n - 1].clone()
        }
    }

    /// Appends `/seg` for each segment onto `out`.
    fn append_canon(&self, out: &mut String)
        ensures
            final (out)@ == old(out)@ + canon_of(self@),
    {
        let n = self.segments.len();
        let mut i: usize = 0;
        while i < n
            invariant
                0 <= i <= n,
                n == self.segments.len(),
                out@ == old(out)@ + canon_of(self@.subrange(0, i as int)),
            decreases n - i,
        {
            out.append("/");
            out.append(self.segments[i].as_str());
            proof {
                reveal_strlit("/");
                assert("/"@ =~= seq!['/']);
                let pre = self@.subrange(0, (i + 1) as int);
                assert(pre.drop_last() =~= self@.subrange(0, i as int));
                assert(pre.last() == self@[i as int]);
                assert(out@ =~= old(out)@ + canon_of(pre));
            }
            i = i + 1;
        }
        proof {
            assert(self@.subrange(0, n as int) =~= self@);
        }
    }

    /// The canonical string form: `/` for the root, else the segments each
    /// prefixed with `/`. This string determines equality, hashing and the
    /// serialized form of an identifier.
    pub fn canonical_string(&self) -> (r: String)
        ensures
            r@ == canonical_of(self@),
    {
        if self.segments.len() == 0 {
            let r = "/".to_owned();
            proof {
                reveal_strlit("/");
                assert(r@ =~= canonical_of(self@));
            }
            r
        } else {
            let mut r = String::new();
            self.append_canon(&mut r);
            proof {
                assert(r@ =~= canonical_of(self@));
            }
            r
        }
    }

    /// The output directory that serves this identifier, below `out`:
    /// `out` itself for the root, else `out` followed by the canonical form.
    pub fn out_dir(&self, out: &str) -> (r: String)
        ensures
            r@ == out@ + canon_of(self@),
    {
        let mut r = out.to_owned();
        self.append_canon(&mut r);
        r
    }

    /// The output file for this identifier below `out`: its output directory
    /// followed by `/index.html`.
    pub fn out_path(&self, out: &str) -> (r: String)
        ensures
            r@ == out@ + canon_of(self@) + "/index.html"@,
    {
        let mut r = self.out_dir(out);
        r.append("/index.html");
        r
    }
}

impl Clone for Uri {
    /// A clone carries the same segment list.
    fn clone(&self) -> (r: Uri)
        ensures
            r@ == self@,
    {
        let v = self.clone_prefix(self.segments.len());
        let u = Uri { segments: v };
        proof {
            assert(self@.subrange(0, self.segments.len() as int) =~= self@);
        }
        u
    }
}

impl PartialEq for Uri {
    /// Two identifiers are equal exactly when their segment lists are.
    fn eq(&self, other: &Self) -> (r: bool) {
        let n = self.segments.len();
        if n != other.segments.len() {
            proof {
                assert(self@.len() != other@.len());
            }
            return false;
        }
        let mut i: usize = 0;
        while i < n
            invariant
                0 <= i <= n,
                n == self.segments.len(),
                n == other.segments.len(),
                forall|j: int| 0 <= j < i ==> self@[j] == other@[j],
            decreases n - i,
        {
            if !(self.segments[i] == other.segments[i]) {
                proof {
                    assert(self@[i as int] != other@[i as int]);
                }
                return false;
            }
            i = i + 1;
        }
        proof {
            assert(self@ =~= other@);
        }
        true
    }
}

impl vstd::std_specs::cmp::PartialEqSpecImpl for Uri {
    open spec fn obeys_eq_spec() -> bool {
        true
    }

    open spec fn eq_spec(&self, other: &Uri) -> bool {
        self@ == other@
    }
}

/// Copies a list of identifiers.
pub fn clone_uris(v: &Vec<Uri>) -> (r: Vec<Uri>)
    ensures
        r.deep_view() == v.deep_view(),
{
    let n = v.len();
    let mut r: Vec<Uri> = Vec::new();
    let mut i: usize = 0;
    while i < n
        invariant
            0 <= i <= n,
            n == v@.len(),
            r@.len() == i,
            forall|j: int| 0 <= j < i ==> (#[trigger] r@[j])@ == v@[j]@,
        decreases n - i,
    {
        r.push(v[i].clone());
        i = i + 1;
    }
    proof {
        assert forall|j: int| 0 <= j < n implies #[trigger] r.deep_view()[j]
            == v.deep_view()[j] by {
            assert(r.deep_view()[j] == r@[j].deep_view());
            assert(v.deep_view()[j] == v@[j].deep_view());
        }
        assert(r.deep_view() =~= v.deep_view());
    }
    r
}

/// No two distinct lists of valid segments share their `/`-joined form.
proof fn lemma_canon_injective(a: Segs, b: Segs)
    requires
        segs_wf(a),
        segs_wf(b),
        canon_of(a) == canon_of(b),
    ensures
        a == b,
    decreases a.len(),
{
    if a.len() == 0 && b.len() == 0 {
        assert(a =~= b);
    } else if a.len() == 0 {
        assert(canon_of(b).len() > 0);
    } else if b.len() == 0 {
        assert(canon_of(a).len() > 0);
    } else {
        let ap = a.drop_last();
        let la = a.last();
        let bp = b.drop_last();
        let lb = b.last();
        let s = canon_of(a);
        assert(s == canon_of(ap) + seq!['/'] + la);
        assert(s == canon_of(bp) + seq!['/'] + lb);
        let pa = canon_of(ap).len() as int;
        let pb = canon_of(bp).len() as int;
        assert(s.len() == pa + 1 + la.len());
        assert(s.len() == pb + 1 + lb.len());
        assert(s[pa] == '/');
        assert(s[pb] == '/');
        assert(!is_segment_char('/'));
        assert(is_valid_segment(la) && is_valid_segment(lb));
        assert forall|j: int| pa + 1 <= j < s.len() implies s[j] != '/' by {
            assert(s[j] == la[j - pa - 1]);
            assert(is_segment_char(la[j - pa - 1]));
        }
        assert forall|j: int| pb + 1 <= j < s.len() implies s[j] != '/' by {
            assert(s[j] == lb[j - pb - 1]);
            assert(is_segment_char(lb[j - pb - 1]));
        }
        assert(pa == pb) by {
            if pa < pb {
                assert(s[pb] != '/');
            }
            if pb < pa {
                assert(s[pa] != '/');
            }
        }
        assert(la =~= lb) by {
            assert forall|j: int| 0 <= j < la.len() implies la[j] == lb[j] by {
                assert(la[j] == s[pa + 1 + j]);
                assert(lb[j] == s[pb + 1 + j]);
            }
        }
        assert(canon_of(ap) =~= canon_of(bp)) by {
            assert forall|j: int| 0 <= j < pa implies canon_of(ap)[j] == canon_of(bp)[j] by {
                assert(s[j] == canon_of(ap)[j]);
                assert(s[j] == canon_of(bp)[j]);
            }
        }
        assert(segs_wf(ap)) by {
            assert forall|i: int| 0 <= i < ap.len() implies is_valid_segment(
                #[trigger] ap[i],
            ) by {
                assert(ap[i] == a[i]);
            }
        }
        assert(segs_wf(bp)) by {
            assert forall|i: int| 0 <= i < bp.len() implies is_valid_segment(
                #[trigger] bp[i],
            ) by {
                assert(bp[i] == b[i]);
            }
        }
        lemma_canon_injective(ap, bp);
        assert(a =~= b) by {
            assert(a == ap.push(la) && b == bp.push(lb)) by {
                assert(ap.push(la) =~= a);
                assert(bp.push(lb) =~= b);
            }
        }
    }
}

/// The canonical string is the single source of truth for equality: two
/// identifiers made of valid segments are equal exactly when their canonical
/// strings are, so identifiers are interchangeable as map keys whenever their
/// canonical strings agree, however each was composed.
pub proof fn lemma_canonical_agrees(a: Segs, b: Segs)
    requires
        segs_wf(a),
        segs_wf(b),
    ensures
        canonical_of(a) == canonical_of(b) <==> a == b,
{
    if canonical_of(a) == canonical_of(b) {
        if a.len() == 0 && b.len() == 0 {
            assert(a =~= b);
        } else if a.len() == 0 {
            assert(is_valid_segment(b.last()));
            assert(canon_of(b).len() == canon_of(b.drop_last()).len() + 1 + b.last().len());
            assert(canonical_of(b).len() >= 2 && canonical_of(a).len() == 1);
        } else if b.len() == 0 {
            assert(is_valid_segment(a.last()));
            assert(canon_of(a).len() == canon_of(a.drop_last()).len() + 1 + a.last().len());
            assert(canonical_of(a).len() >= 2 && canonical_of(b).len() == 1);
        } else {
            lemma_canon_injective(a, b);
        }
    }
}

/// Joining a valid segment and then taking the parent round-trips: appending
/// a segment to any identifier and stripping the last segment of the result
/// yields the original identifier.
pub proof fn lemma_join_parent_round_trip(u: Segs, s: Seq<char>)
    requires
        is_valid_segment(s),
    ensures
        u.push(s).drop_last() == u,
        u.push(s).last() == s,
{
    assert(u.push(s).drop_last() =~= u);
}

} // verus!
