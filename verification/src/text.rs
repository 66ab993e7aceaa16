//! The flattened output buffer: an appendable byte text together with an
//! ordered interval map recording, for every span of output bytes, the
//! source file and byte range it came from.

use vstd::prelude::*;
use crate::range::Range;

verus! {

/// Mathematical model of one origin record: output bytes `[begin, end)`
/// came from the file named `path`, at byte offsets `[obegin, oend)` of
/// that file.
#[verifier::ext_equal]
pub struct OriginModel {
    pub begin: int,
    pub end: int,
    pub path: Seq<u8>,
    pub obegin: int,
    pub oend: int,
}

impl OriginModel {
    /// Both intervals are well formed and cover the same number of bytes:
    /// every output byte has exactly one origin byte.
    pub open spec fn wf(self) -> bool {
        &&& 0 <= self.begin <= self.end
        &&& 0 <= self.obegin <= self.oend
        &&& self.end - self.begin == self.oend - self.obegin
    }

    /// Whether output position `p` falls inside this record's output range.
    pub open spec fn contains_pos(self, p: int) -> bool {
        self.begin <= p < self.end
    }

    /// The same record with its output range shifted right by `n` bytes.
    pub open spec fn shifted(self, n: int) -> OriginModel {
        OriginModel { begin: self.begin + n, end: self.end + n, ..self }
    }
}

/// Mathematical model of a `PreprocessedText`: the output bytes and the
/// sequence of origin records, in ascending output order.
#[verifier::ext_equal]
pub struct TextModel {
    pub text: Seq<u8>,
    pub origins: Seq<OriginModel>,
}

impl TextModel {
    pub open spec fn empty() -> TextModel {
        TextModel { text: Seq::empty(), origins: Seq::empty() }
    }

    /// Every record is well formed and lies within the output text, and
    /// the records are pairwise disjoint, in ascending order.
    pub open spec fn wf(self) -> bool {
        &&& forall|i: int|
            0 <= i < self.origins.len() ==> (#[trigger] self.origins[i]).wf()
                && self.origins[i].end <= self.text.len()
        &&& forall|i: int, j: int|
            #![trigger self.origins[i], self.origins[j]]
            0 <= i < j < self.origins.len() ==> self.origins[i].end <= self.origins[j].begin
    }

    /// The model after appending `s`, recorded as coming from `path` at
    /// `[obegin, oend)`.
    pub open spec fn push_model(self, s: Seq<u8>, path: Seq<u8>, obegin: int, oend: int) -> TextModel {
        TextModel {
            text: self.text + s,
            origins: self.origins.push(
                OriginModel {
                    begin: self.text.len() as int,
                    end: self.text.len() + s.len() as int,
                    path: path,
                    obegin: obegin,
                    oend: oend,
                },
            ),
        }
    }

    /// The model after appending a whole other buffer, its origin records
    /// rebased past the end of this one.
    pub open spec fn merge_model(self, other: TextModel) -> TextModel {
        TextModel {
            text: self.text + other.text,
            origins: self.origins
                + other.origins.map_values(|o: OriginModel| o.shifted(self.text.len() as int)),
        }
    }
}

/// What an origin lookup at `pos` may answer on a buffer modelled by `g`:
/// `Some((path, q))` exactly when some record contains `pos`, with `q` the
/// corresponding offset inside the origin file; `None` exactly when no
/// record contains `pos`.
pub open spec fn origin_matches(g: TextModel, pos: int, r: Option<(Seq<u8>, int)>) -> bool {
    match r {
        Some(pq) => exists|i: int|
            0 <= i < g.origins.len() && (#[trigger] g.origins[i]).contains_pos(pos)
                && pq.0 == g.origins[i].path
                && pq.1 == pos - g.origins[i].begin + g.origins[i].obegin,
        None => forall|i: int|
            0 <= i < g.origins.len() ==> !(#[trigger] g.origins[i]).contains_pos(pos),
    }
}

/// The spec view of an exec lookup answer.
pub open spec fn origin_view(r: Option<(Vec<u8>, usize)>) -> Option<(Seq<u8>, int)> {
    match r {
        Some(pq) => Some((pq.0@, pq.1 as int)),
        None => None,
    }
}

/// Whether every origin record of `g` reads back, byte for byte, the
/// contents that `files` gives for its origin file.
pub open spec fn faithful(g: TextModel, files: Map<Seq<u8>, Seq<u8>>) -> bool {
    forall|i: int|
        0 <= i < g.origins.len() ==> {
            let o = #[trigger] g.origins[i];
            &&& files.dom().contains(o.path)
            &&& o.oend <= files[o.path].len()
            &&& forall|p: int|
                o.begin <= p < o.end ==> #[trigger] g.text[p] == files[o.path][p - o.begin
                    + o.obegin]
        }
}

/// One record of the interval map: the output bytes at `range` came from
/// file `origin_path` at `origin_range` in that file.
#[derive(Debug)]
pub struct Origin {
    pub range: Range,
    pub origin_path: Vec<u8>,
    pub origin_range: Range,
}

impl View for Origin {
    type V = OriginModel;

    open spec fn view(&self) -> OriginModel {
        OriginModel {
            begin: self.range.begin as int,
            end: self.range.end as int,
            path: self.origin_path@,
            obegin: self.origin_range.begin as int,
            oend: self.origin_range.end as int,
        }
    }
}

/// The flattened output of the preprocessor: the output bytes and the
/// ordered interval map of their origins.
#[derive(Debug)]
pub struct PreprocessedText {
    text: Vec<u8>,
    origins: Vec<Origin>,
}

impl View for PreprocessedText {
    type V = TextModel;

    closed spec fn view(&self) -> TextModel {
        TextModel { text: self.text@, origins: self.origins@.map_values(|o: Origin| o@) }
    }
}

pub fn clone_bytes(v: &Vec<u8>) -> (r: Vec<u8>)
    ensures
        r@ == v@,
{
    let r = v.clone();
    proof {
        assert(r@ =~= v@);
    }
    r
}

impl PreprocessedText {
    pub open spec fn wf(&self) -> bool {
        self@.wf()
    }

    /// An empty buffer with no origin records.
    pub fn new() -> (r: PreprocessedText)
        ensures
            r.wf(),
            r@ == TextModel::empty(),
    {
        let r = PreprocessedText { text: Vec::new(), origins: Vec::new() };
        proof {
            assert(r@ =~= TextModel::empty());
        }
        r
    }

    /// The output bytes.
    pub fn text(&self) -> (r: &Vec<u8>)
        ensures
            r@ == self@.text,
    {
        &self.text
    }

    /// Append `s` to the output, recording that it came from `origin_path`
    /// at `origin_range`. The slice must cover exactly as many bytes as
    /// the origin range it stands for.
    pub fn push(&mut self, s: &Vec<u8>, origin_path: &Vec<u8>, origin_range: Range)
        requires
            old(self).wf(),
            origin_range.wf(),
            s@.len() == origin_range.span(),
        ensures
            final(self).wf(),
            final(self)@ == old(self)@.push_model(
                s@,
                origin_path@,
                origin_range.begin as int,
                origin_range.end as int,
            ),
    {
        let base = self.text.len();
        let mut i: usize = 0;
        while i < s.len()
            invariant
                i <= s@.len(),
                self.text@ == old(self).text@ + s@.subrange(0, i as int),
                self.origins@ == old(self).origins@,
            decreases s@.len() - i,
        {
            self.text.push(s[i]);
            proof {
                assert(self.text@ =~= old(self).text@ + s@.subrange(0, i + 1 as int));
            }
            i = i + 1;
        }
        proof {
            assert(s@.subrange(0, s@.len() as int) =~= s@);
        }
        let end = self.text.len();
        let range = Range::new(base, end);
        let origin = Origin { range, origin_path: clone_bytes(origin_path), origin_range };
        self.origins.push(origin);
        proof {
            let pushed = old(self)@.push_model(
                s@,
                origin_path@,
                origin_range.begin as int,
                origin_range.end as int,
            );
            assert(self@.origins =~= pushed.origins);
            assert(self@ =~= pushed);
        }
    }

    /// Append a whole other buffer, rebasing its origin records past the
    /// end of this one. The other buffer is consumed.
    pub fn merge(&mut self, other: PreprocessedText)
        requires
            old(self).wf(),
            other.wf(),
        ensures
            final(self).wf(),
            final(self)@ == old(self)@.merge_model(other@),
    {
        let base = self.text.len();
        let mut i: usize = 0;
        while i < other.text.len()
            invariant
                i <= other.text@.len(),
                self.text@ == old(self).text@ + other.text@.subrange(0, i as int),
                self.origins@ == old(self).origins@,
            decreases other.text@.len() - i,
        {
            self.text.push(other.text[i]);
            proof {
                assert(self.text@ =~= old(self).text@ + other.text@.subrange(0, i + 1 as int));
            }
            i = i + 1;
        }
        proof {
            assert(other.text@.subrange(0, other.text@.len() as int) =~= other.text@);
        }
        let total = self.text.len();
        let mut j: usize = 0;
        while j < other.origins.len()
            invariant
                j <= other.origins@.len(),
                base == old(self).text@.len(),
                self.text@ == old(self).text@ + other.text@,
                total == self.text@.len(),
                self.origins@.len() == old(self).origins@.len() + j,
                forall|k: int|
                    0 <= k < old(self).origins@.len() ==> #[trigger] self.origins@[k] == old(
                        self,
                    ).origins@[k],
                forall|k: int|
                    0 <= k < j ==> (#[trigger] self.origins@[old(self).origins@.len() + k])@
                        == other@.origins[k].shifted(base as int),
            decreases other.origins@.len() - j,
        {
            let o = &other.origins[j];
            proof {
                assert(other@.origins[j as int] == o@);
                assert(o@.wf() && o@.end <= other@.text.len());
            }
            let range = Range::new(o.range.begin + base, o.range.end + base);
            let rebased = Origin {
                range,
                origin_path: clone_bytes(&o.origin_path),
                origin_range: o.origin_range,
            };
            proof {
                assert(rebased@ == other@.origins[j as int].shifted(base as int));
            }
            self.origins.push(rebased);
            j = j + 1;
        }
        proof {
            let merged = old(self)@.merge_model(other@);
            assert forall|k: int| 0 <= k < self@.origins.len() implies #[trigger] self@.origins[k]
                == merged.origins[k] by {
                if k < old(self).origins@.len() {
                    assert(self@.origins[k] == self.origins@[k]@);
                } else {
                    let d = k - old(self).origins@.len();
                    assert((self.origins@[old(self).origins@.len() + d])@ == other@.origins[
                        d].shifted(base as int));
                }
            }
            assert(self@ =~= merged);
        }
    }

    /// Look up the origin of output position `pos`: the record whose
    /// output range contains `pos`, translated to an offset in the origin
    /// file. Runs in logarithmic time over the record count.
    pub fn origin(&self, pos: usize) -> (r: Option<(Vec<u8>, usize)>)
        requires
            self.wf(),
        ensures
            origin_matches(self@, pos as int, origin_view(r)),
    {
        let mut lo: usize = 0;
        let mut hi: usize = self.origins.len();
        while lo < hi
            invariant
                lo <= hi <= self.origins@.len(),
                forall|i: int|
                    0 <= i < lo ==> !(#[trigger] self@.origins[i]).contains_pos(pos as int),
                forall|i: int|
                    hi <= i < self@.origins.len() ==> !(#[trigger] self@.origins[i]).contains_pos(
                        pos as int,
                    ),
            decreases hi - lo,
        {
            let mid = lo + (hi - lo) / 2;
            let o = &self.origins[mid];
            proof {
                assert(self@.origins[mid as int] == o@);
            }
            if o.range.end <= pos {
                proof {
                    assert forall|i: int| 0 <= i < mid + 1 implies !(
                    #[trigger] self@.origins[i]).contains_pos(pos as int) by {
                        if lo <= i < mid {
                            assert(self@.origins[i].end <= self@.origins[mid as int].begin);
                        }
                    }
                }
                lo = mid + 1;
            } else if pos < o.range.begin {
                proof {
                    assert forall|i: int| mid <= i < self@.origins.len() implies !(
                    #[trigger] self@.origins[i]).contains_pos(pos as int) by {
                        if mid < i {
                            assert(self@.origins[mid as int].end <= self@.origins[i].begin);
                        }
                    }
                }
                hi = mid;
            } else {
                proof {
                    assert(self@.origins[mid as int].wf());
                }
                let q = pos - o.range.begin + o.origin_range.begin;
                let r = Some((clone_bytes(&o.origin_path), q));
                proof {
                    assert(self@.origins[mid as int].contains_pos(pos as int));
                }
                return r;
            }
        }
        None
    }
}

/// Origin ranges of a well-formed buffer are pairwise disjoint and in
/// ascending order: an earlier record ends at or before a later one
/// begins.
pub proof fn lemma_origins_disjoint(g: TextModel, i: int, j: int)
    requires
        g.wf(),
        0 <= i < j < g.origins.len(),
    ensures
        g.origins[i].begin <= g.origins[i].end,
        g.origins[i].end <= g.origins[j].begin,
        g.origins[j].begin <= g.origins[j].end,
{
}

/// Origin lookup is a function of the buffer model and the position: any
/// two answers the characterization admits for the same buffer and
/// position are equal.
pub proof fn lemma_origin_unique(g: TextModel, pos: int, r1: Option<(Seq<u8>, int)>, r2: Option<
    (Seq<u8>, int),
>)
    requires
        g.wf(),
        origin_matches(g, pos, r1),
        origin_matches(g, pos, r2),
    ensures
        r1 == r2,
{
    match (r1, r2) {
        (Some(a), Some(b)) => {
            let i = choose|i: int|
                0 <= i < g.origins.len() && (#[trigger] g.origins[i]).contains_pos(pos) && a.0
                    == g.origins[i].path && a.1 == pos - g.origins[i].begin + g.origins[i].obegin;
            let j = choose|j: int|
                0 <= j < g.origins.len() && (#[trigger] g.origins[j]).contains_pos(pos) && b.0
                    == g.origins[j].path && b.1 == pos - g.origins[j].begin + g.origins[j].obegin;
            if i < j {
                assert(g.origins[i].end <= g.origins[j].begin);
            }
            if j < i {
                assert(g.origins[j].end <= g.origins[i].begin);
            }
            assert(i == j);
        },
        (Some(a), None) => {
            let i = choose|i: int|
                0 <= i < g.origins.len() && (#[trigger] g.origins[i]).contains_pos(pos) && a.0
                    == g.origins[i].path && a.1 == pos - g.origins[i].begin + g.origins[i].obegin;
            assert(!g.origins[i].contains_pos(pos));
        },
        (None, Some(b)) => {
            let j = choose|j: int|
                0 <= j < g.origins.len() && (#[trigger] g.origins[j]).contains_pos(pos) && b.0
                    == g.origins[j].path && b.1 == pos - g.origins[j].begin + g.origins[j].obegin;
            assert(!g.origins[j].contains_pos(pos));
        },
        (None, None) => {},
    }
}

/// Whether the buffer `b` is the buffer `a` with more output appended:
/// everything `a` holds stands unaltered as a prefix of `b`.
pub open spec fn extends_to(a: TextModel, b: TextModel) -> bool {
    &&& a.text.len() <= b.text.len()
    &&& b.text.subrange(0, a.text.len() as int) == a.text
    &&& a.origins.len() <= b.origins.len()
    &&& b.origins.subrange(0, a.origins.len() as int) == a.origins
}

pub proof fn lemma_extends_refl(a: TextModel)
    ensures
        extends_to(a, a),
{
    assert(a.text.subrange(0, a.text.len() as int) =~= a.text);
    assert(a.origins.subrange(0, a.origins.len() as int) =~= a.origins);
}

pub proof fn lemma_extends_trans(a: TextModel, b: TextModel, c: TextModel)
    requires
        extends_to(a, b),
        extends_to(b, c),
    ensures
        extends_to(a, c),
{
    assert forall|p: int| 0 <= p < a.text.len() implies c.text[p] == a.text[p] by {
        assert(b.text.subrange(0, a.text.len() as int)[p] == a.text[p]);
        assert(c.text.subrange(0, b.text.len() as int)[p] == b.text[p]);
    }
    assert(c.text.subrange(0, a.text.len() as int) =~= a.text);
    assert forall|p: int| 0 <= p < a.origins.len() implies c.origins[p] == a.origins[p] by {
        assert(b.origins.subrange(0, a.origins.len() as int)[p] == a.origins[p]);
        assert(c.origins.subrange(0, b.origins.len() as int)[p] == b.origins[p]);
    }
    assert(c.origins.subrange(0, a.origins.len() as int) =~= a.origins);
}

pub proof fn lemma_push_extends(g: TextModel, s: Seq<u8>, path: Seq<u8>, obegin: int, oend: int)
    ensures
        extends_to(g, g.push_model(s, path, obegin, oend)),
{
    let m = g.push_model(s, path, obegin, oend);
    assert(m.text.subrange(0, g.text.len() as int) =~= g.text);
    assert(m.origins.subrange(0, g.origins.len() as int) =~= g.origins);
}

pub proof fn lemma_merge_extends(a: TextModel, b: TextModel)
    ensures
        extends_to(a, a.merge_model(b)),
{
    let m = a.merge_model(b);
    assert(m.text.subrange(0, a.text.len() as int) =~= a.text);
    assert(m.origins.subrange(0, a.origins.len() as int) =~= a.origins);
}

/// Appending preserves well-formedness: the new record begins where the
/// old text ended, past every earlier record.
pub proof fn lemma_push_model_wf(g: TextModel, s: Seq<u8>, path: Seq<u8>, obegin: int, oend: int)
    requires
        g.wf(),
        0 <= obegin <= oend,
        s.len() == oend - obegin,
    ensures
        g.push_model(s, path, obegin, oend).wf(),
{
}

/// Merging two well-formed buffers is well formed: the rebased records
/// all begin past the end of the first buffer's text.
pub proof fn lemma_merge_model_wf(a: TextModel, b: TextModel)
    requires
        a.wf(),
        b.wf(),
    ensures
        a.merge_model(b).wf(),
{
    let m = a.merge_model(b);
    assert forall|i: int| 0 <= i < m.origins.len() implies (#[trigger] m.origins[i]).wf()
        && m.origins[i].end <= m.text.len() by {
        if i >= a.origins.len() {
            assert(b.origins[i - a.origins.len()].wf());
        }
    }
    assert forall|i: int, j: int|
        #![trigger m.origins[i], m.origins[j]]
        0 <= i < j < m.origins.len() implies m.origins[i].end <= m.origins[j].begin by {
        if j >= a.origins.len() {
            assert(b.origins[j - a.origins.len()].wf());
            if i >= a.origins.len() {
                assert(b.origins[i - a.origins.len()].end <= b.origins[j - a.origins.len()].begin);
            } else {
                assert(a.origins[i].end <= a.text.len());
            }
        }
    }
}

/// Appending bytes that really are the named slice of the named file
/// keeps the buffer faithful: the earlier text is untouched and the new
/// record reads back exactly the appended bytes.
pub proof fn lemma_push_model_faithful(
    g: TextModel,
    files: Map<Seq<u8>, Seq<u8>>,
    s: Seq<u8>,
    path: Seq<u8>,
    obegin: int,
    oend: int,
)
    requires
        g.wf(),
        faithful(g, files),
        files.dom().contains(path),
        0 <= obegin <= oend <= files[path].len(),
        s == files[path].subrange(obegin, oend),
    ensures
        faithful(g.push_model(s, path, obegin, oend), files),
{
    let m = g.push_model(s, path, obegin, oend);
    assert forall|i: int| 0 <= i < m.origins.len() implies {
        let o = #[trigger] m.origins[i];
        &&& files.dom().contains(o.path)
        &&& o.oend <= files[o.path].len()
        &&& forall|p: int|
            o.begin <= p < o.end ==> #[trigger] m.text[p] == files[o.path][p - o.begin + o.obegin]
    } by {
        if i < g.origins.len() {
            let o = g.origins[i];
            assert forall|p: int| o.begin <= p < o.end implies #[trigger] m.text[p]
                == files[o.path][p - o.begin + o.obegin] by {
                assert(g.text[p] == files[o.path][p - o.begin + o.obegin]);
            }
        } else {
            let o = m.origins[i];
            assert forall|p: int| o.begin <= p < o.end implies #[trigger] m.text[p]
                == files[o.path][p - o.begin + o.obegin] by {
                assert(m.text[p] == s[p - g.text.len()]);
                assert(s[p - g.text.len()] == files[path][obegin + (p - g.text.len())]);
            }
        }
    }
}

/// Merging a faithful buffer into a faithful buffer stays faithful: old
/// records read the unchanged prefix, rebased records read the appended
/// copy of the other text.
pub proof fn lemma_merge_model_faithful(a: TextModel, b: TextModel, files: Map<Seq<u8>, Seq<u8>>)
    requires
        a.wf(),
        b.wf(),
        faithful(a, files),
        faithful(b, files),
    ensures
        faithful(a.merge_model(b), files),
{
    let m = a.merge_model(b);
    let n = a.text.len() as int;
    assert forall|i: int| 0 <= i < m.origins.len() implies {
        let o = #[trigger] m.origins[i];
        &&& files.dom().contains(o.path)
        &&& o.oend <= files[o.path].len()
        &&& forall|p: int|
            o.begin <= p < o.end ==> #[trigger] m.text[p] == files[o.path][p - o.begin + o.obegin]
    } by {
        if i < a.origins.len() {
            let o = a.origins[i];
            assert(o.end <= a.text.len());
            assert forall|p: int| o.begin <= p < o.end implies #[trigger] m.text[p]
                == files[o.path][p - o.begin + o.obegin] by {
                assert(a.text[p] == files[o.path][p - o.begin + o.obegin]);
            }
        } else {
            let d = i - a.origins.len();
            let ob = b.origins[d];
            let o = m.origins[i];
            assert(o == ob.shifted(n));
            assert(ob.wf() && ob.end <= b.text.len());
            assert forall|p: int| o.begin <= p < o.end implies #[trigger] m.text[p]
                == files[o.path][p - o.begin + o.obegin] by {
                assert(m.text[p] == b.text[p - n]);
                assert(b.text[p - n] == files[ob.path][(p - n) - ob.begin + ob.obegin]);
            }
        }
    }
}

/// If every origin record of a well-formed buffer is faithful to the file
/// contents in `files`, then an origin lookup that answers `(path, q)` for
/// position `pos` identifies exactly the byte of the origin file that was
/// emitted at `pos`: the output byte and the origin byte are equal.
pub proof fn lemma_origin_byte(
    g: TextModel,
    files: Map<Seq<u8>, Seq<u8>>,
    pos: int,
    path: Seq<u8>,
    q: int,
)
    requires
        g.wf(),
        faithful(g, files),
        origin_matches(g, pos, Some((path, q))),
    ensures
        0 <= pos < g.text.len(),
        files.dom().contains(path),
        0 <= q < files[path].len(),
        g.text[pos] == files[path][q],
{
    let i = choose|i: int|
        0 <= i < g.origins.len() && (#[trigger] g.origins[i]).contains_pos(pos) && path
            == g.origins[i].path && q == pos - g.origins[i].begin + g.origins[i].obegin;
    let o = g.origins[i];
    assert(g.text[pos] == files[o.path][pos - o.begin + o.obegin]);
}

} // verus!
