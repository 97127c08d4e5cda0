use vstd::prelude::*;
use crate::text::{push_str, string_of, same_text, push_char};

verus! {

/// One segment of a qualified name: an identifier with an optional list of
/// template arguments, e.g. `Vec<T>` in `std::Vec<T>`.
#[derive(Debug, PartialEq, Eq, Hash)]
pub struct QualifiedNameSegment {
    pub ident: String,
    pub template_spec: Vec<QualifiedName>,
}

/// A `::`-separated path such as `core::traits::Add`.
#[derive(Debug, PartialEq, Eq, Hash)]
pub struct QualifiedName {
    pub v: Vec<QualifiedNameSegment>,
}

/// Two segments are the same name: same identifier text and pairwise the
/// same template arguments.
pub open spec fn seg_eqv(a: QualifiedNameSegment, b: QualifiedNameSegment) -> bool
    decreases a,
{
    &&& a.ident@ == b.ident@
    &&& a.template_spec@.len() == b.template_spec@.len()
    &&& forall|j: int|
        #![trigger a.template_spec@[j]]
        0 <= j < a.template_spec@.len() ==> name_eqv(a.template_spec@[j], b.template_spec@[j])
}

/// Two qualified names denote the same path (segment by segment).
pub open spec fn name_eqv(a: QualifiedName, b: QualifiedName) -> bool
    decreases a,
{
    &&& a.v@.len() == b.v@.len()
    &&& forall|j: int| #![trigger a.v@[j]] 0 <= j < a.v@.len() ==> seg_eqv(a.v@[j], b.v@[j])
}

/// The text `_mange_<ident>_` that a single segment mangles to.
pub open spec fn seg_mangled(s: QualifiedNameSegment) -> Seq<char> {
    seq!['_', 'm', 'a', 'n', 'g', 'e', '_'] + s.ident@ + seq!['_']
}

/// Concatenation of the mangled segments of `segs`.
pub open spec fn segs_mangled(segs: Seq<QualifiedNameSegment>) -> Seq<char>
    decreases segs.len(),
{
    if segs.len() == 0 {
        Seq::empty()
    } else {
        segs_mangled(segs.drop_last()) + seg_mangled(segs.last())
    }
}

/// Mangling a segment evaluates the mangling of every template argument
/// (and throws it away), which needs every one of them to be non-empty.
pub open spec fn seg_mangle_ok(s: QualifiedNameSegment) -> bool
    decreases s,
{
    forall|j: int|
        #![trigger s.template_spec@[j]]
        0 <= j < s.template_spec@.len() ==> name_mangle_ok(s.template_spec@[j])
}

/// A name can be mangled when it has a first segment and all of its
/// segments can be mangled.
pub open spec fn name_mangle_ok(n: QualifiedName) -> bool
    decreases n,
{
    &&& n.v@.len() > 0
    &&& forall|j: int| #![trigger n.v@[j]] 0 <= j < n.v@.len() ==> seg_mangle_ok(n.v@[j])
}

/// The rendering of a segment: `ident` or `ident<A, B, >`.
pub open spec fn seg_text(s: QualifiedNameSegment) -> Seq<char>
    decreases s, s.template_spec@.len() + 1,
{
    if s.template_spec@.len() > 0 {
        s.ident@ + seq!['<'] + names_list_text(s, s.template_spec@.len() as int) + seq!['>']
    } else {
        s.ident@
    }
}

/// The rendering `A, B, ` of the first `n` template arguments of `s`.
pub open spec fn names_list_text(s: QualifiedNameSegment, n: int) -> Seq<char>
    decreases s, n,
{
    if n <= 0 || n > s.template_spec@.len() {
        Seq::empty()
    } else {
        proof {
            assert(decreases_to!(s => s.template_spec));
            assert(decreases_to!(s.template_spec => s.template_spec@));
            assert(decreases_to!(s.template_spec@ => s.template_spec@[n - 1]));
        }
        names_list_text(s, n - 1) + name_text(s.template_spec@[n - 1]) + seq![',', ' ']
    }
}

/// The rendering of a qualified name: its segments joined by `::`.
pub open spec fn name_text(n: QualifiedName) -> Seq<char>
    decreases n, n.v@.len() + 1,
{
    segs_text(n, n.v@.len() as int)
}

/// The rendering of the first `k` segments of `n`, joined by `::`.
pub open spec fn segs_text(n: QualifiedName, k: int) -> Seq<char>
    decreases n, k,
{
    if k <= 0 || k > n.v@.len() {
        Seq::empty()
    } else if k == 1 {
        proof {
            assert(decreases_to!(n => n.v));
            assert(decreases_to!(n.v => n.v@));
            assert(decreases_to!(n.v@ => n.v@[0]));
        }
        seg_text(n.v@[0])
    } else {
        proof {
            assert(decreases_to!(n => n.v));
            assert(decreases_to!(n.v => n.v@));
            assert(decreases_to!(n.v@ => n.v@[k - 1]));
        }
        segs_text(n, k - 1) + seq![':', ':'] + seg_text(n.v@[k - 1])
    }
}

pub proof fn lemma_seg_eqv_refl(a: QualifiedNameSegment)
    ensures
        seg_eqv(a, a),
    decreases a,
{
    assert forall|j: int|
        #![trigger a.template_spec@[j]]
        0 <= j < a.template_spec@.len() implies name_eqv(a.template_spec@[j], a.template_spec@[j]) by {
        assert(decreases_to!(a => a.template_spec));
        assert(decreases_to!(a.template_spec => a.template_spec@));
        assert(decreases_to!(a.template_spec@ => a.template_spec@[j]));
        lemma_name_eqv_refl(a.template_spec@[j]);
    }
}

/// Name equivalence is reflexive.
pub proof fn lemma_name_eqv_refl(a: QualifiedName)
    ensures
        name_eqv(a, a),
    decreases a,
{
    assert forall|j: int| #![trigger a.v@[j]] 0 <= j < a.v@.len() implies seg_eqv(a.v@[j], a.v@[j]) by {
        assert(decreases_to!(a => a.v));
        assert(decreases_to!(a.v => a.v@));
        assert(decreases_to!(a.v@ => a.v@[j]));
        lemma_seg_eqv_refl(a.v@[j]);
    }
}

pub proof fn lemma_seg_eqv_sym(a: QualifiedNameSegment, b: QualifiedNameSegment)
    requires
        seg_eqv(a, b),
    ensures
        seg_eqv(b, a),
    decreases a,
{
    assert forall|j: int|
        #![trigger b.template_spec@[j]]
        0 <= j < b.template_spec@.len() implies name_eqv(b.template_spec@[j], a.template_spec@[j]) by {
        assert(decreases_to!(a => a.template_spec));
        assert(decreases_to!(a.template_spec => a.template_spec@));
        assert(decreases_to!(a.template_spec@ => a.template_spec@[j]));
        assert(name_eqv(a.template_spec@[j], b.template_spec@[j]));
        lemma_name_eqv_sym(a.template_spec@[j], b.template_spec@[j]);
    }
}

/// Name equivalence is symmetric.
pub proof fn lemma_name_eqv_sym(a: QualifiedName, b: QualifiedName)
    requires
        name_eqv(a, b),
    ensures
        name_eqv(b, a),
    decreases a,
{
    assert forall|j: int| #![trigger b.v@[j]] 0 <= j < b.v@.len() implies seg_eqv(b.v@[j], a.v@[j]) by {
        assert(decreases_to!(a => a.v));
        assert(decreases_to!(a.v => a.v@));
        assert(decreases_to!(a.v@ => a.v@[j]));
        assert(seg_eqv(a.v@[j], b.v@[j]));
        lemma_seg_eqv_sym(a.v@[j], b.v@[j]);
    }
}

pub proof fn lemma_seg_eqv_trans(a: QualifiedNameSegment, b: QualifiedNameSegment, c: QualifiedNameSegment)
    requires
        seg_eqv(a, b),
        seg_eqv(b, c),
    ensures
        seg_eqv(a, c),
    decreases a,
{
    assert forall|j: int|
        #![trigger a.template_spec@[j]]
        0 <= j < a.template_spec@.len() implies name_eqv(a.template_spec@[j], c.template_spec@[j]) by {
        assert(decreases_to!(a => a.template_spec));
        assert(decreases_to!(a.template_spec => a.template_spec@));
        assert(decreases_to!(a.template_spec@ => a.template_spec@[j]));
        assert(name_eqv(a.template_spec@[j], b.template_spec@[j]));
        assert(name_eqv(b.template_spec@[j], c.template_spec@[j]));
        lemma_name_eqv_trans(a.template_spec@[j], b.template_spec@[j], c.template_spec@[j]);
    }
}

/// Name equivalence is transitive.
pub proof fn lemma_name_eqv_trans(a: QualifiedName, b: QualifiedName, c: QualifiedName)
    requires
        name_eqv(a, b),
        name_eqv(b, c),
    ensures
        name_eqv(a, c),
    decreases a,
{
    assert forall|j: int| #![trigger a.v@[j]] 0 <= j < a.v@.len() implies seg_eqv(a.v@[j], c.v@[j]) by {
        assert(decreases_to!(a => a.v));
        assert(decreases_to!(a.v => a.v@));
        assert(decreases_to!(a.v@ => a.v@[j]));
        assert(seg_eqv(a.v@[j], b.v@[j]));
        assert(seg_eqv(b.v@[j], c.v@[j]));
        lemma_seg_eqv_trans(a.v@[j], b.v@[j], c.v@[j]);
    }
}

impl QualifiedNameSegment {
    /// A segment with the given identifier and no template arguments.
    pub fn from_ident(ident: &str) -> (r: Self)
        ensures
            r.ident@ == ident@,
            r.template_spec@.len() == 0,
    {
        QualifiedNameSegment { ident: string_of(ident), template_spec: Vec::new() }
    }

    /// A segment holding `ident` and no template arguments.
    pub fn from_string(ident: String) -> (r: Self)
        ensures
            r.ident == ident,
            r.template_spec@.len() == 0,
    {
        QualifiedNameSegment { ident, template_spec: Vec::new() }
    }

    /// Whether the segment carries template arguments.
    pub fn is_template(&self) -> (r: bool)
        ensures
            r == (self.template_spec@.len() > 0),
    {
        self.template_spec.len() != 0
    }

    /// The mangled form `_mange_<ident>_` of the segment.
    pub fn mangle(&self) -> (r: String)
        requires
            seg_mangle_ok(*self),
        ensures
            r@ == seg_mangled(*self),
    {
        let mut out = string_of("_mange_");
        push_str(&mut out, self.ident.as_str());
        push_char(&mut out, '_');
        proof {
            reveal_strlit("_mange_");
            assert(out@ =~= seg_mangled(*self));
        }
        out
    }

    /// A copy of the segment that denotes the same name.
    pub fn copy(&self) -> (r: Self)
        ensures
            seg_eqv(r, *self),
        decreases self,
    {
        let mut specs: Vec<QualifiedName> = Vec::new();
        let mut i: usize = 0;
        while i < self.template_spec.len()
            invariant
                i <= self.template_spec@.len(),
                specs@.len() == i,
                forall|j: int| #![trigger specs@[j]] 0 <= j < i ==> name_eqv(specs@[j], self.template_spec@[j]),
            decreases self.template_spec@.len() - i,
        {
            proof {
                assert(decreases_to!(*self => self.template_spec));
                assert(decreases_to!(self.template_spec => self.template_spec@));
                assert(decreases_to!(self.template_spec@ => self.template_spec@[i as int]));
            }
            let c = self.template_spec[i].copy();
            specs.push(c);
            i += 1;
        }
        let r = QualifiedNameSegment { ident: self.ident.clone(), template_spec: specs };
        proof {
            assert forall|j: int| #![trigger r.template_spec@[j]] 0 <= j < r.template_spec@.len()
                implies name_eqv(r.template_spec@[j], self.template_spec@[j]) by {
                assert(specs@[j] == r.template_spec@[j]);
            }
        }
        r
    }

    /// Whether the two segments denote the same name.
    pub fn same_as(&self, other: &Self) -> (r: bool)
        ensures
            r == seg_eqv(*self, *other),
        decreases self,
    {
        if !same_text(self.ident.as_str(), other.ident.as_str()) {
            return false;
        }
        if self.template_spec.len() != other.template_spec.len() {
            return false;
        }
        let mut i: usize = 0;
        while i < self.template_spec.len()
            invariant
                i <= self.template_spec@.len(),
                self.template_spec@.len() == other.template_spec@.len(),
                forall|j: int| #![trigger self.template_spec@[j]] 0 <= j < i
                    ==> name_eqv(self.template_spec@[j], other.template_spec@[j]),
            decreases self.template_spec@.len() - i,
        {
            proof {
                assert(decreases_to!(*self => self.template_spec));
                assert(decreases_to!(self.template_spec => self.template_spec@));
                assert(decreases_to!(self.template_spec@ => self.template_spec@[i as int]));
            }
            if !self.template_spec[i].same_as(&other.template_spec[i]) {
                return false;
            }
            i += 1;
        }
        true
    }

    /// The text of the segment: `ident`, or `ident<A, B, >` with template
    /// arguments.
    pub fn to_text(&self) -> (r: String)
        ensures
            r@ == seg_text(*self),
        decreases self, self.template_spec@.len() + 1,
    {
        let mut out = self.ident.clone();
        if self.template_spec.len() == 0 {
            return out;
        }
        push_char(&mut out, '<');
        let mut i: usize = 0;
        while i < self.template_spec.len()
            invariant
                i <= self.template_spec@.len(),
                self.template_spec@.len() > 0,
                out@ == self.ident@ + seq!['<'] + names_list_text(*self, i as int),
            decreases self.template_spec@.len() - i,
        {
            proof {
                assert(decreases_to!(*self => self.template_spec));
                assert(decreases_to!(self.template_spec => self.template_spec@));
                assert(decreases_to!(self.template_spec@ => self.template_spec@[i as int]));
            }
            let t = self.template_spec[i].to_text();
            push_str(&mut out, t.as_str());
            push_char(&mut out, ',');
            push_char(&mut out, ' ');
            proof {
                assert(names_list_text(*self, i + 1) == names_list_text(*self, i as int)
                    + name_text(self.template_spec@[i as int]) + seq![',', ' ']);
                assert(out@ =~= self.ident@ + seq!['<'] + names_list_text(*self, i + 1));
            }
            i += 1;
        }
        push_char(&mut out, '>');
        assert(out@ =~= seg_text(*self));
        out
    }
}

impl QualifiedName {
    /// The empty name.
    pub fn new() -> (r: Self)
        ensures
            r.v@.len() == 0,
    {
        QualifiedName { v: Vec::new() }
    }

    /// The one-segment name `ident`.
    pub fn from_ident(ident: &str) -> (r: Self)
        ensures
            r.v@.len() == 1,
            r.v@[0].ident@ == ident@,
            r.v@[0].template_spec@.len() == 0,
    {
        let mut v = Vec::new();
        v.push(QualifiedNameSegment::from_ident(ident));
        QualifiedName { v }
    }

    /// The one-segment name made of `seg`.
    pub fn from_segment(seg: QualifiedNameSegment) -> (r: Self)
        ensures
            r.v@ == seq![seg],
    {
        let mut v = Vec::new();
        v.push(seg);
        QualifiedName { v }
    }

    /// Appends a segment at the end of the name.
    pub fn add_segment(&mut self, s: QualifiedNameSegment)
        ensures
            final(self).v@ == old(self).v@.push(s),
    {
        self.v.push(s);
    }

    /// Appends the segment `ident` (without template arguments).
    pub fn add_ident(&mut self, ident: &str)
        ensures
            final(self).v@.len() == old(self).v@.len() + 1,
            final(self).v@.drop_last() == old(self).v@,
            final(self).v@.last().ident@ == ident@,
            final(self).v@.last().template_spec@.len() == 0,
    {
        self.v.push(QualifiedNameSegment::from_ident(ident));
        assert(self.v@.drop_last() =~= old(self).v@);
    }

    /// The segment at `index`.
    pub fn get(&self, index: usize) -> (r: &QualifiedNameSegment)
        requires
            index < self.v@.len(),
        ensures
            *r == self.v@[index as int],
    {
        &self.v[index]
    }

    /// Removes the first segment.
    pub fn pop_front(&mut self)
        requires
            old(self).v@.len() > 0,
        ensures
            final(self).v@ == old(self).v@.drop_first(),
    {
        self.v.remove(0);
    }

    /// The number of segments.
    pub fn len(&self) -> (r: usize)
        ensures
            r == self.v@.len(),
    {
        self.v.len()
    }

    /// The mangled form of the name: the mangled segments, concatenated.
    pub fn mangle(&self) -> (r: String)
        requires
            name_mangle_ok(*self),
        ensures
            r@ == segs_mangled(self.v@),
    {
        let mut out = String::new();
        let mut i: usize = 0;
        while i < self.v.len()
            invariant
                i <= self.v@.len(),
                name_mangle_ok(*self),
                out@ == segs_mangled(self.v@.take(i as int)),
            decreases self.v@.len() - i,
        {
            let m = self.v[i].mangle();
            push_str(&mut out, m.as_str());
            assert(self.v@.take(i + 1).drop_last() =~= self.v@.take(i as int));
            i += 1;
        }
        assert(self.v@.take(i as int) =~= self.v@);
        out
    }

    /// A copy of the name that denotes the same path.
    pub fn copy(&self) -> (r: Self)
        ensures
            name_eqv(r, *self),
        decreases self,
    {
        let mut segs: Vec<QualifiedNameSegment> = Vec::new();
        let mut i: usize = 0;
        while i < self.v.len()
            invariant
                i <= self.v@.len(),
                segs@.len() == i,
                forall|j: int| #![trigger segs@[j]] 0 <= j < i ==> seg_eqv(segs@[j], self.v@[j]),
            decreases self.v@.len() - i,
        {
            proof {
                assert(decreases_to!(*self => self.v));
                assert(decreases_to!(self.v => self.v@));
                assert(decreases_to!(self.v@ => self.v@[i as int]));
            }
            let c = self.v[i].copy();
            segs.push(c);
            i += 1;
        }
        let r = QualifiedName { v: segs };
        proof {
            assert forall|j: int| #![trigger r.v@[j]] 0 <= j < r.v@.len() implies seg_eqv(r.v@[j], self.v@[j]) by {
                assert(segs@[j] == r.v@[j]);
            }
        }
        r
    }

    /// Whether the two names denote the same path.
    pub fn same_as(&self, other: &Self) -> (r: bool)
        ensures
            r == name_eqv(*self, *other),
        decreases self,
    {
        if self.v.len() != other.v.len() {
            return false;
        }
        let mut i: usize = 0;
        while i < self.v.len()
            invariant
                i <= self.v@.len(),
                self.v@.len() == other.v@.len(),
                forall|j: int| #![trigger self.v@[j]] 0 <= j < i ==> seg_eqv(self.v@[j], other.v@[j]),
            decreases self.v@.len() - i,
        {
            proof {
                assert(decreases_to!(*self => self.v));
                assert(decreases_to!(self.v => self.v@));
                assert(decreases_to!(self.v@ => self.v@[i as int]));
            }
            if !self.v[i].same_as(&other.v[i]) {
                return false;
            }
            i += 1;
        }
        true
    }

    /// The text of the name: its segments joined by `::`.
    pub fn to_text(&self) -> (r: String)
        ensures
            r@ == name_text(*self),
        decreases self, self.v@.len() + 1,
    {
        let mut out = String::new();
        let mut i: usize = 0;
        while i < self.v.len()
            invariant
                i <= self.v@.len(),
                out@ == segs_text(*self, i as int),
            decreases self.v@.len() - i,
        {
            proof {
                assert(decreases_to!(*self => self.v));
                assert(decreases_to!(self.v => self.v@));
                assert(decreases_to!(self.v@ => self.v@[i as int]));
            }
            let t = self.v[i].to_text();
            if i > 0 {
                push_char(&mut out, ':');
                push_char(&mut out, ':');
            }
            push_str(&mut out, t.as_str());
            proof {
                if i == 0 {
                    assert(out@ =~= segs_text(*self, 1));
                } else {
                    assert(out@ =~= segs_text(*self, i + 1));
                }
            }
            i += 1;
        }
        out
    }
}

impl Default for QualifiedNameSegment {
    /// The segment with an empty identifier and no template arguments.
    fn default() -> (r: Self)
        ensures
            r.ident@.len() == 0,
            r.template_spec@.len() == 0,
    {
        QualifiedNameSegment { ident: String::new(), template_spec: Vec::new() }
    }
}

impl Default for QualifiedName {
    /// The path of no segments.
    fn default() -> (r: Self)
        ensures
            r.v@.len() == 0,
    {
        QualifiedName::new()
    }
}

} // verus!
