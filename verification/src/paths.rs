//! Structured filesystem paths and lexical path resolution.
//!
//! A path is an absolute/relative flag plus a sequence of name segments.
//! Normalization is purely lexical: a `..` segment pops the previous
//! segment (if any) and a `.` segment is dropped, so hypothetical paths
//! can be resolved without touching a real filesystem.

use vstd::prelude::*;

verus! {

/// Mathematical model of a path: absolute flag plus name segments.
#[verifier::ext_equal]
pub ghost struct PathModel {
    pub abs: bool,
    pub segs: Seq<Seq<char>>,
}

/// The one-segment path component `.`.
pub open spec fn seg_dot() -> Seq<char> {
    "."@
}

/// The one-segment path component `..`.
pub open spec fn seg_dotdot() -> Seq<char> {
    ".."@
}

/// A segment that names a real entry: nonempty and not a navigation segment.
pub open spec fn seg_is_normal(s: Seq<char>) -> bool {
    s.len() > 0 && s != seg_dot() && s != seg_dotdot()
}

/// All segments of the sequence name real entries.
pub open spec fn segs_normal(ss: Seq<Seq<char>>) -> bool {
    forall|i: int| 0 <= i < ss.len() ==> seg_is_normal(#[trigger] ss[i])
}

/// Lexical normalization of a segment sequence: `..` pops the previous
/// segment (if any), `.` is dropped, every other segment is kept.
pub open spec fn norm_segs(ss: Seq<Seq<char>>) -> Seq<Seq<char>>
    decreases ss.len(),
{
    if ss.len() == 0 {
        Seq::empty()
    } else {
        let r = norm_segs(ss.drop_last());
        if ss.last() == seg_dotdot() {
            if r.len() > 0 {
                r.drop_last()
            } else {
                r
            }
        } else if ss.last() == seg_dot() {
            r
        } else {
            r.push(ss.last())
        }
    }
}

/// `p` is a (not necessarily strict) leading prefix of `q`.
pub open spec fn is_seg_prefix(p: Seq<Seq<char>>, q: Seq<Seq<char>>) -> bool {
    p.len() <= q.len() && q.take(p.len() as int) == p
}

/// `p` stays inside `pre`: same kind of root and `pre`'s segments lead `p`'s.
pub open spec fn path_starts_with(p: PathModel, pre: PathModel) -> bool {
    p.abs == pre.abs && is_seg_prefix(pre.segs, p.segs)
}

/// The model of joining `b` onto `a`: an absolute `b` replaces `a` wholesale.
pub open spec fn join_models(a: PathModel, b: PathModel) -> PathModel {
    if b.abs {
        b
    } else {
        PathModel { abs: a.abs, segs: a.segs + b.segs }
    }
}

/// Joining a whole sequence of paths, left to right.
pub open spec fn join_all(ps: Seq<PathModel>) -> PathModel
    decreases ps.len(),
{
    if ps.len() == 0 {
        PathModel { abs: false, segs: Seq::empty() }
    } else {
        join_models(join_all(ps.drop_last()), ps.last())
    }
}

/// Characters that may not appear in an item name.
pub open spec fn char_allowed(c: char) -> bool {
    c != '\\' && c != '/' && c != '?' && c != '%' && c != '*' && c != ':' && c != '|' && c != '"'
        && c != '<' && c != '>'
}

/// Every character of the name is allowed.
pub open spec fn name_valid(s: Seq<char>) -> bool {
    forall|i: int| 0 <= i < s.len() ==> char_allowed(#[trigger] s[i])
}

/// A name that can be used for a vault, folder or note: it names a real
/// entry (nonempty, not `.` or `..`) and contains no forbidden character.
pub open spec fn item_name_ok(s: Seq<char>) -> bool {
    seg_is_normal(s) && name_valid(s)
}

/// Normalization only produces normal segments.
pub proof fn lemma_norm_segs_normal(ss: Seq<Seq<char>>)
    requires
        forall|i: int| 0 <= i < ss.len() ==> (#[trigger] ss[i]).len() > 0,
    ensures
        segs_normal(norm_segs(ss)),
    decreases ss.len(),
{
    if ss.len() > 0 {
        lemma_norm_segs_normal(ss.drop_last());
    }
}

/// A structured filesystem path: an absolute/relative flag and the
/// sequence of name segments, in order.
#[derive(Debug)]
pub struct SysPath {
    absolute: bool,
    segments: Vec<String>,
}

impl View for SysPath {
    type V = PathModel;

    closed spec fn view(&self) -> PathModel {
        PathModel { abs: self.absolute, segs: self.segments.deep_view() }
    }
}

impl DeepView for SysPath {
    type V = PathModel;

    open spec fn deep_view(&self) -> PathModel {
        self.view()
    }
}

impl Clone for SysPath {
    fn clone(&self) -> (r: Self)
        ensures
            r@ == self@,
    {
        let segments = clone_segments(&self.segments);
        let r = SysPath { absolute: self.absolute, segments };
        assert(r@ =~= self@);
        r
    }
}

/// Clone a segment vector, keeping it equal in the logic.
fn clone_segments(v: &Vec<String>) -> (r: Vec<String>)
    ensures
        r@ == v@,
{
    let mut r: Vec<String> = Vec::new();
    let mut i: usize = 0;
    while i < v.len()
        invariant
            i <= v.len(),
            r@ =~= v@.take(i as int),
        decreases v.len() - i,
    {
        r.push(v[i].clone());
        assert(r@ =~= v@.take(i as int + 1));
        i += 1;
    }
    proof {
        assert(v@.take(v@.len() as int) =~= v@);
    }
    r
}

impl SysPath {
    /// Every segment is nonempty.
    pub open spec fn wf(self) -> bool {
        forall|i: int| 0 <= i < self@.segs.len() ==> (#[trigger] self@.segs[i]).len() > 0
    }

    /// Every segment names a real entry: no `.` or `..` left.
    pub open spec fn normalized(self) -> bool {
        segs_normal(self@.segs)
    }

    /// The empty path: absolute (a filesystem root) or relative.
    pub fn new(absolute: bool) -> (r: SysPath)
        ensures
            r@ == (PathModel { abs: absolute, segs: Seq::<Seq<char>>::empty() }),
    {
        let r = SysPath { absolute, segments: Vec::new() };
        assert(r@.segs =~= Seq::<Seq<char>>::empty());
        r
    }

    pub fn is_absolute(&self) -> (r: bool)
        ensures
            r == self@.abs,
    {
        self.absolute
    }

    /// The segments of the path, in order.
    pub fn segments(&self) -> (r: &Vec<String>)
        ensures
            r.deep_view() == self@.segs,
    {
        &self.segments
    }

    pub fn seg_count(&self) -> (r: usize)
        ensures
            r == self@.segs.len(),
    {
        self.segments.len()
    }

    /// Append one segment; an empty segment is dropped.
    pub fn push(&mut self, part: &String)
        ensures
            final(self)@.abs == old(self)@.abs,
            part@.len() > 0 ==> final(self)@.segs == old(self)@.segs.push(part@),
            part@.len() == 0 ==> *final(self) == *old(self),
    {
        if !part.as_str().is_empty() {
            let ghost before = self@.segs;
            self.segments.push(part.clone());
            assert(self@.segs =~= before.push(part@));
        }
    }

    /// The path with `name` appended as one further segment.
    pub fn child(&self, name: &String) -> (r: SysPath)
        requires
            name@.len() > 0,
        ensures
            r@.abs == self@.abs,
            r@.segs == self@.segs.push(name@),
    {
        let mut r = self.clone();
        r.push(name);
        r
    }

    /// Paths are equal exactly when their models are.
    pub fn equals(&self, other: &SysPath) -> (r: bool)
        ensures
            r == (self@ == other@),
    {
        if self.absolute != other.absolute {
            return false;
        }
        if self.segments.len() != other.segments.len() {
            assert(self@.segs.len() != other@.segs.len());
            return false;
        }
        let n = self.segments.len();
        let mut i: usize = 0;
        while i < n
            invariant
                n == self.segments.len(),
                n == other.segments.len(),
                i <= n,
                self.absolute == other.absolute,
                forall|j: int| 0 <= j < i ==> self@.segs[j] == other@.segs[j],
            decreases n - i,
        {
            if !string_eq(&self.segments[i], &other.segments[i]) {
                assert(self@.segs[i as int] != other@.segs[i as int]);
                return false;
            }
            i += 1;
        }
        proof {
            assert(self@.segs =~= other@.segs);
            assert(self@ =~= other@);
        }
        true
    }

    /// True exactly when this path stays inside `prefix`.
    pub fn starts_with(&self, prefix: &SysPath) -> (r: bool)
        ensures
            r == path_starts_with(self@, prefix@),
    {
        if self.absolute != prefix.absolute {
            return false;
        }
        let n = prefix.segments.len();
        if n > self.segments.len() {
            return false;
        }
        let mut i: usize = 0;
        while i < n
            invariant
                n == prefix.segments.len(),
                n <= self.segments.len(),
                i <= n,
                self.absolute == prefix.absolute,
                forall|j: int| 0 <= j < i ==> self@.segs[j] == prefix@.segs[j],
            decreases n - i,
        {
            if !string_eq(&self.segments[i], &prefix.segments[i]) {
                assert(self@.segs.take(n as int)[i as int] != prefix@.segs[i as int]);
                return false;
            }
            i += 1;
        }
        proof {
            assert(self@.segs.take(n as int) =~= prefix@.segs);
        }
        true
    }

    /// The part of this path below `prefix`, as a relative path.
    pub fn strip_prefix(&self, prefix: &SysPath) -> (r: SysPath)
        requires
            path_starts_with(self@, prefix@),
        ensures
            r@.abs == false,
            r@.segs == self@.segs.skip(prefix@.segs.len() as int),
    {
        let n = prefix.segments.len();
        let mut segments: Vec<String> = Vec::new();
        let mut i: usize = n;
        while i < self.segments.len()
            invariant
                n <= i <= self.segments.len(),
                segments.deep_view() =~= self@.segs.subrange(n as int, i as int),
            decreases self.segments.len() - i,
        {
            let ghost before = segments.deep_view();
            segments.push(self.segments[i].clone());
            assert(segments.deep_view() =~= before.push(self@.segs[i as int]));
            i += 1;
        }
        let r = SysPath { absolute: false, segments };
        proof {
            assert(r@.segs =~= self@.segs.skip(prefix@.segs.len() as int));
        }
        r
    }

    /// Join `other` onto this path; an absolute `other` replaces it.
    pub fn join(&self, other: &SysPath) -> (r: SysPath)
        ensures
            r@ == join_models(self@, other@),
    {
        if other.absolute {
            let r = other.clone();
            assert(r@ =~= join_models(self@, other@));
            r
        } else {
            let mut segments = clone_segments(&self.segments);
            let mut i: usize = 0;
            while i < other.segments.len()
                invariant
                    i <= other.segments.len(),
                    segments.deep_view() =~= self@.segs + other@.segs.take(i as int),
                decreases other.segments.len() - i,
            {
                let ghost before = segments.deep_view();
                segments.push(other.segments[i].clone());
                assert(segments.deep_view() =~= before.push(other@.segs[i as int]));
                assert(segments.deep_view() =~= self@.segs + other@.segs.take(i as int + 1));
                i += 1;
            }
            let r = SysPath { absolute: self.absolute, segments };
            proof {
                assert(other@.segs.take(other@.segs.len() as int) =~= other@.segs);
                assert(r@ =~= join_models(self@, other@));
            }
            r
        }
    }
}

/// Exact string comparison, reflected into the logic.
pub fn string_eq(a: &String, b: &String) -> (r: bool)
    ensures
        r == (a@ == b@),
{
    a.eq(b)
}

/// Concatenate path segments left to right, as one path.
pub fn join_paths(paths: &Vec<SysPath>) -> (r: SysPath)
    ensures
        r@ == join_all(paths.deep_view()),
{
    let mut r = SysPath::new(false);
    let mut i: usize = 0;
    while i < paths.len()
        invariant
            i <= paths.len(),
            r@ == join_all(paths.deep_view().take(i as int)),
        decreases paths.len() - i,
    {
        r = r.join(&paths[i]);
        proof {
            let pre = paths.deep_view().take(i as int + 1);
            assert(pre.drop_last() =~= paths.deep_view().take(i as int));
            assert(pre.last() == paths.deep_view()[i as int]);
        }
        i += 1;
    }
    proof {
        assert(paths.deep_view().take(paths.deep_view().len() as int) =~= paths.deep_view());
    }
    r
}

/// Lexically normalize a path: collapse `.` and `..` segments without
/// consulting a filesystem, so hypothetical paths can be checked too.
pub fn process_path(path: &SysPath) -> (r: SysPath)
    ensures
        r@.abs == path@.abs,
        r@.segs == norm_segs(path@.segs),
{
    let dot: String = String::from_str(".");
    let dotdot: String = String::from_str("..");
    let mut segments: Vec<String> = Vec::new();
    let mut i: usize = 0;
    while i < path.segments.len()
        invariant
            i <= path.segments.len(),
            dot@ == seg_dot(),
            dotdot@ == seg_dotdot(),
            segments.deep_view() =~= norm_segs(path@.segs.take(i as int)),
        decreases path.segments.len() - i,
    {
        let ghost before = segments.deep_view();
        let seg = &path.segments[i];
        if string_eq(seg, &dotdot) {
            if segments.len() > 0 {
                segments.pop();
                assert(segments.deep_view() =~= before.drop_last());
            }
        } else if string_eq(seg, &dot) {
            // dropped
        } else {
            segments.push(seg.clone());
            assert(segments.deep_view() =~= before.push(path@.segs[i as int]));
        }
        proof {
            let pre = path@.segs.take(i as int + 1);
            assert(pre.drop_last() =~= path@.segs.take(i as int));
            assert(pre.last() == path@.segs[i as int]);
        }
        i += 1;
    }
    let r = SysPath { absolute: path.absolute, segments };
    proof {
        assert(path@.segs.take(path@.segs.len() as int) =~= path@.segs);
    }
    r
}

/// Every character of the name is allowed in an item name.
pub fn valid_name(name: &String) -> (r: bool)
    ensures
        r == name_valid(name@),
{
    let s = name.as_str();
    let n = s.unicode_len();
    let mut i: usize = 0;
    while i < n
        invariant
            n == s@.len(),
            i <= n,
            s@ == name@,
            forall|j: int| 0 <= j < i ==> char_allowed(#[trigger] name@[j]),
        decreases n - i,
    {
        let c = s.get_char(i);
        if c == '\\' || c == '/' || c == '?' || c == '%' || c == '*' || c == ':' || c == '|'
            || c == '"' || c == '<' || c == '>' {
            return false;
        }
        i += 1;
    }
    true
}

/// The segment names a real entry: nonempty and not `.` or `..`.
pub fn check_normal_seg(s: &String) -> (r: bool)
    ensures
        r == seg_is_normal(s@),
{
    if s.as_str().is_empty() {
        return false;
    }
    let dot: String = String::from_str(".");
    let dotdot: String = String::from_str("..");
    !string_eq(s, &dot) && !string_eq(s, &dotdot)
}

/// A name may serve as a vault, folder or note name: allowed characters
/// only, nonempty, and not a navigation segment.
pub fn check_item_name(name: &String) -> (r: bool)
    ensures
        r == item_name_ok(name@),
{
    if name.as_str().is_empty() {
        return false;
    }
    let dot: String = String::from_str(".");
    let dotdot: String = String::from_str("..");
    if string_eq(name, &dot) || string_eq(name, &dotdot) {
        return false;
    }
    valid_name(name)
}

} // verus!
