//! Turning a request target into a path under the served root.

use vstd::prelude::*;
use vstd::string::*;

verus! {

/// Why a request target does not name a path under the root.
#[derive(Clone, Copy, Debug, PartialEq, Eq, Structural)]
pub enum PathError {
    /// A `%` not followed by two hexadecimal digits.
    Malformed,
    /// The normalized path leaves the root.
    OutsideRoot,
}

/// An ASCII hexadecimal digit.
pub open spec fn is_hex(c: char) -> bool {
    let u = c as u32;
    (48 <= u && u <= 57) || (65 <= u && u <= 70) || (97 <= u && u <= 102)
}

/// Every `%` in `s` starts a `%XX` escape.
pub open spec fn escapes_well_formed(s: Seq<char>) -> bool {
    forall|i: int|
        0 <= i < s.len() && #[trigger] s[i] == '%' ==> i + 2 < s.len() && is_hex(s[i + 1])
            && is_hex(s[i + 2])
}

/// Whether every `%` in `s` starts a `%XX` escape.
pub fn has_valid_escapes(s: &str) -> (r: bool)
    ensures
        r == escapes_well_formed(s@),
{
    let n = s.unicode_len();
    let mut i: usize = 0;
    while i < n
        invariant
            n == s@.len(),
            i <= n,
            forall|k: int|
                0 <= k < i && #[trigger] s@[k] == '%' ==> k + 2 < s@.len() && is_hex(s@[k + 1])
                    && is_hex(s@[k + 2]),
        decreases n - i,
    {
        if s.get_char(i) == '%' {
            if n - i <= 2 || !is_hex_char(s.get_char(i + 1)) || !is_hex_char(s.get_char(i + 2)) {
                assert(s@[i as int] == '%');
                return false;
            }
        }
        i = i + 1;
    }
    true
}

/// Whether `c` is an ASCII hexadecimal digit.
pub fn is_hex_char(c: char) -> (r: bool)
    ensures
        r == is_hex(c),
{
    let u = c as u32;
    (48 <= u && u <= 57) || (65 <= u && u <= 70) || (97 <= u && u <= 102)
}

/// What url_escape's percent-decoding makes of a text.
pub uninterp spec fn percent_decoded(s: Seq<char>) -> Seq<char>;

/// Relies on `url_escape::decode`: `%XX` escapes become the bytes they
/// encode, read back as lossy UTF-8; a text without `%` comes back unchanged.
#[verifier::external_body]
pub(crate) fn percent_decode(s: &str) -> (r: String)
    ensures
        r@ == percent_decoded(s@),
        !s@.contains('%') ==> r@ == s@,
{
    url_escape::decode(s).into_owned()
}

/// The path after one leading `/` is stripped.
pub open spec fn relative_part(d: Seq<char>) -> Seq<char> {
    if d.len() > 0 && d[0] == '/' {
        d.drop_first()
    } else {
        d
    }
}

/// The `/`-separated pieces of `s`, empty pieces included.
pub open spec fn split_slash(s: Seq<char>) -> Seq<Seq<char>>
    decreases s.len(),
{
    if s.len() == 0 {
        seq![Seq::empty()]
    } else {
        let rest = split_slash(s.drop_last());
        if s.last() == '/' {
            rest.push(Seq::empty())
        } else {
            rest.update(rest.len() - 1, rest.last().push(s.last()))
        }
    }
}

/// One step of lexical normalization: empty and `.` segments are dropped,
/// `..` goes up one level (staying put at `/`), any other name goes down.
pub open spec fn step(stack: Seq<Seq<char>>, seg: Seq<char>) -> Seq<Seq<char>> {
    if seg.len() == 0 || seg == seq!['.'] {
        stack
    } else if seg == seq!['.', '.'] {
        if stack.len() == 0 {
            stack
        } else {
            stack.drop_last()
        }
    } else {
        stack.push(seg)
    }
}

/// Normalizing `segs`, left to right, starting below the directory `init`.
pub open spec fn fold_segments(init: Seq<Seq<char>>, segs: Seq<Seq<char>>) -> Seq<Seq<char>>
    decreases segs.len(),
{
    if segs.len() == 0 {
        init
    } else {
        step(fold_segments(init, segs.drop_last()), segs.last())
    }
}

/// The normalized segments of an absolute path such as the root.
pub open spec fn root_segments(root: Seq<char>) -> Seq<Seq<char>> {
    fold_segments(Seq::empty(), split_slash(root))
}

/// The normalized segments of the root joined with a decoded target whose
/// leading `/` is stripped, or `None` when what remains is itself absolute.
pub open spec fn candidate(root: Seq<char>, d: Seq<char>) -> Option<Seq<Seq<char>>> {
    let rel = relative_part(d);
    if rel.len() > 0 && rel[0] == '/' {
        None
    } else {
        Some(fold_segments(root_segments(root), split_slash(rel)))
    }
}

/// The segments below the root that a decoded target names, or `None` when
/// the normalized candidate does not keep the root's segments as its prefix.
pub open spec fn normalized(root: Seq<char>, d: Seq<char>) -> Option<Seq<Seq<char>>> {
    match candidate(root, d) {
        None => None,
        Some(full) => {
            let base = root_segments(root);
            if full.len() >= base.len() && full.take(base.len() as int) == base {
                Some(full.skip(base.len() as int))
            } else {
                None
            }
        },
    }
}

/// The root followed by `/<segment>` for each segment.
pub open spec fn joined(root: Seq<char>, segs: Seq<Seq<char>>) -> Seq<char>
    decreases segs.len(),
{
    if segs.len() == 0 {
        root
    } else {
        joined(root, segs.drop_last()) + seq!['/'] + segs.last()
    }
}

/// The texts of a list of string slices.
pub open spec fn texts(v: Seq<&str>) -> Seq<Seq<char>> {
    v.map_values(|t: &str| t@)
}

pub proof fn lemma_split_nonempty(s: Seq<char>)
    ensures
        split_slash(s).len() >= 1,
    decreases s.len(),
{
    if s.len() > 0 {
        lemma_split_nonempty(s.drop_last());
    }
}

fn apply_segment<'a>(stack: &mut Vec<&'a str>, seg: &'a str)
    ensures
        texts(final(stack)@) == step(texts(old(stack)@), seg@),
{
    let n = seg.unicode_len();
    if n == 0 {
    } else if n == 1 && seg.get_char(0) == '.' {
        assert(seg@ =~= seq!['.']);
    } else if n == 2 && seg.get_char(0) == '.' && seg.get_char(1) == '.' {
        assert(seg@ =~= seq!['.', '.']);
        if stack.len() > 0 {
            stack.pop();
            assert(texts(final(stack)@) =~= texts(old(stack)@).drop_last());
        }
    } else {
        assert(seg@ != seq!['.']) by {
            if n == 1 {
                assert(seg@[0] != seq!['.'][0]);
            }
        }
        assert(seg@ != seq!['.', '.']) by {
            if n == 2 {
                assert(seg@[0] != seq!['.', '.'][0] || seg@[1] != seq!['.', '.'][1]);
            }
        }
        stack.push(seg);
        assert(texts(final(stack)@) =~= texts(old(stack)@).push(seg@));
    }
}

/// Normalizes the `/`-separated segments of `s` onto `stack`.
fn fold_onto<'a>(stack: &mut Vec<&'a str>, s: &'a str)
    ensures
        texts(final(stack)@) == fold_segments(texts(old(stack)@), split_slash(s@)),
{
    let ghost init = texts(stack@);
    let m = s.unicode_len();
    let mut seg_start: usize = 0;
    let mut i: usize = 0;
    proof {
        assert(s@.take(0) =~= Seq::<char>::empty());
        assert(s@.subrange(0, 0) =~= Seq::<char>::empty());
    }
    while i < m
        invariant
            m == s@.len(),
            seg_start <= i <= m,
            split_slash(s@.take(i as int)).len() >= 1,
            split_slash(s@.take(i as int)).last() == s@.subrange(seg_start as int, i as int),
            fold_segments(init, split_slash(s@.take(i as int)).drop_last()) == texts(stack@),
        decreases m - i,
    {
        let ghost sp = split_slash(s@.take(i as int));
        proof {
            assert(s@.take(i + 1).drop_last() =~= s@.take(i as int));
            lemma_split_nonempty(s@.take(i as int));
        }
        if s.get_char(i) == '/' {
            let seg = s.substring_char(seg_start, i);
            apply_segment(stack, seg);
            proof {
                let sp2 = split_slash(s@.take(i + 1));
                assert(sp2 == sp.push(Seq::empty()));
                assert(sp2.drop_last() =~= sp);
                assert(sp.drop_last().push(sp.last()) =~= sp);
                assert(s@.subrange(i + 1, i + 1) =~= Seq::<char>::empty());
            }
            seg_start = i + 1;
        } else {
            proof {
                let sp2 = split_slash(s@.take(i + 1));
                assert(sp2 == sp.update(sp.len() - 1, sp.last().push(s@[i as int])));
                assert(sp2.drop_last() =~= sp.drop_last());
                assert(sp2.last() =~= s@.subrange(seg_start as int, i + 1));
            }
        }
        i = i + 1;
    }
    proof {
        assert(s@.take(m as int) =~= s@);
        lemma_split_nonempty(s@);
        let sp = split_slash(s@);
        assert(sp.drop_last().push(sp.last()) =~= sp);
    }
    let seg = s.substring_char(seg_start, m);
    apply_segment(stack, seg);
}

/// Whether two texts are equal.
fn same_text(a: &str, b: &str) -> (r: bool)
    ensures
        r == (a@ == b@),
{
    let n = a.unicode_len();
    if n != b.unicode_len() {
        return false;
    }
    let mut i: usize = 0;
    while i < n
        invariant
            n == a@.len() == b@.len(),
            i <= n,
            forall|k: int| 0 <= k < i ==> a@[k] == b@[k],
        decreases n - i,
    {
        if a.get_char(i) != b.get_char(i) {
            return false;
        }
        i = i + 1;
    }
    assert(a@ =~= b@);
    true
}

/// Whether the first `base.len()` segments of `full` are those of `base`.
fn starts_with_segments(full: &Vec<&str>, base: &Vec<&str>) -> (r: bool)
    ensures
        r == (texts(full@).len() >= texts(base@).len() && texts(full@).take(
            texts(base@).len() as int,
        ) == texts(base@)),
{
    if full.len() < base.len() {
        return false;
    }
    let mut k: usize = 0;
    while k < base.len()
        invariant
            k <= base@.len() <= full@.len(),
            forall|j: int| 0 <= j < k ==> full@[j]@ == base@[j]@,
        decreases base@.len() - k,
    {
        if !same_text(full[k], base[k]) {
            assert(texts(full@).take(base@.len() as int)[k as int] != texts(base@)[k as int]);
            return false;
        }
        k = k + 1;
    }
    assert(texts(full@).take(base@.len() as int) =~= texts(base@));
    true
}

/// Joins the root and the segments of `segs` from index `from` on into one
/// path text.
fn join_segments(root: &str, segs: &Vec<&str>, from: usize) -> (r: String)
    requires
        from <= segs@.len(),
    ensures
        r@ == joined(root@, texts(segs@).skip(from as int)),
{
    let ghost rest = texts(segs@).skip(from as int);
    let mut out = String::from_str(root);
    let mut k: usize = from;
    proof {
        assert(rest.take(0) =~= Seq::<Seq<char>>::empty());
    }
    while k < segs.len()
        invariant
            from <= k <= segs@.len(),
            rest == texts(segs@).skip(from as int),
            out@ == joined(root@, rest.take(k - from)),
        decreases segs@.len() - k,
    {
        out.append("/");
        out.append(segs[k]);
        proof {
            reveal_strlit("/");
            assert(rest.take(k + 1 - from).drop_last() =~= rest.take(k - from));
            assert(rest.take(k + 1 - from).last() == segs@[k as int]@);
        }
        k = k + 1;
    }
    proof {
        assert(rest.take(k - from) =~= rest);
    }
    out
}

/// Resolves an already decoded target against `root`: strips one leading
/// `/`, normalizes the root's segments followed by the target's (`.` and
/// `..` resolved without touching the filesystem), and accepts the result
/// only when it keeps the root's segments as a prefix. The path returned is
/// the root followed by the segments below it. A target that is absolute
/// after its leading `/` is stripped, or whose normalization leaves the root,
/// is `OutsideRoot`.
/// Containment is a property of the text alone: a symbolic link below the
/// root that points elsewhere is followed by whoever opens the path.
pub fn resolve_decoded(decoded: &str, root: &str) -> (r: Result<String, PathError>)
    ensures
        match normalized(root@, decoded@) {
            Some(segs) => r is Ok && r->Ok_0@ == joined(root@, segs),
            None => r == Err::<String, PathError>(PathError::OutsideRoot),
        },
{
    let n = decoded.unicode_len();
    let start: usize = if n > 0 && decoded.get_char(0) == '/' {
        1
    } else {
        0
    };
    let rel = decoded.substring_char(start, n);
    assert(rel@ =~= relative_part(decoded@));
    if start < n && decoded.get_char(start) == '/' {
        return Err(PathError::OutsideRoot);
    }
    let mut base: Vec<&str> = Vec::new();
    assert(texts(base@) =~= Seq::<Seq<char>>::empty());
    fold_onto(&mut base, root);
    let mut full: Vec<&str> = base.clone();
    assert(full@ =~= base@);
    fold_onto(&mut full, rel);
    if starts_with_segments(&full, &base) {
        let r = join_segments(root, &full, base.len());
        assert(texts(full@).skip(base@.len() as int) =~= texts(full@).skip(
            texts(base@).len() as int,
        ));
        Ok(r)
    } else {
        Err(PathError::OutsideRoot)
    }
}

/// Resolves a raw request target against `root`: a malformed `%` escape is
/// `Malformed`; otherwise the target is percent-decoded and resolved.
pub fn resolve(raw: &str, root: &str) -> (r: Result<String, PathError>)
    ensures
        !escapes_well_formed(raw@) ==> r == Err::<String, PathError>(PathError::Malformed),
        escapes_well_formed(raw@) ==> match normalized(root@, percent_decoded(raw@)) {
            Some(segs) => r is Ok && r->Ok_0@ == joined(root@, segs),
            None => r == Err::<String, PathError>(PathError::OutsideRoot),
        },
{
    if !has_valid_escapes(raw) {
        return Err(PathError::Malformed);
    }
    let decoded = percent_decode(raw);
    resolve_decoded(decoded.as_str(), root)
}

} // verus!
