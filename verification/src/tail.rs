//! Tailing an external codex rollout file: which references may be read at
//! all, and the last lines of the file with the byte offset they start at.
//! Resolving the path and reading the file is the program's job.
use vstd::prelude::*;
use vstd::utf8::{valid_utf8, decode_utf8};
use crate::discovery::file_name;
use crate::session::no_newline;
use crate::text::{chars_of, has_prefix, has_suffix, starts_with, ends_with, find_last, same_chars};

verus! {

/// What `String::from_utf8_lossy` makes of a byte string.
pub uninterp spec fn utf8_lossy(bytes: Seq<u8>) -> Seq<char>;

/// `String::from_utf8_lossy`: decodes `bytes`, replacing each invalid
/// sequence by U+FFFD. Claimed of it: the result depends on the bytes
/// alone, and valid UTF-8 decodes to exactly its characters. What it makes
/// of invalid bytes is left to the name.
#[verifier::external_body]
fn lossy_string(bytes: &[u8]) -> (s: String)
    ensures
        s@ == utf8_lossy(bytes@),
        valid_utf8(bytes@) ==> s@ == decode_utf8(bytes@),
{
    String::from_utf8_lossy(bytes).into_owned()
}

/// Splitting `s` at each `sep` (`str::split`), left to right: the finished
/// pieces and the piece being read.
pub open spec fn piece_state(s: Seq<u8>, sep: u8) -> (Seq<Seq<u8>>, Seq<u8>)
    decreases s.len(),
{
    if s.len() == 0 {
        (Seq::empty(), Seq::empty())
    } else {
        let (done, cur) = piece_state(s.drop_last(), sep);
        if s.last() == sep {
            (done.push(cur), Seq::empty())
        } else {
            (done, cur.push(s.last()))
        }
    }
}

/// The lines of a rollout file: its bytes split at each newline, without
/// the empty piece a final newline leaves.
pub open spec fn rollout_lines(s: Seq<u8>) -> Seq<Seq<u8>> {
    let (done, cur) = piece_state(s, 10u8);
    if cur.len() == 0 {
        done
    } else {
        done.push(cur)
    }
}

/// The lines `ls`, each followed by its newline.
pub open spec fn with_newlines(ls: Seq<Seq<u8>>) -> Seq<u8>
    decreases ls.len(),
{
    if ls.len() == 0 {
        Seq::empty()
    } else {
        with_newlines(ls.drop_last()) + ls.last().push(10u8)
    }
}

/// Index of the first line returned when the last `n` lines are asked for
/// out of `count`: all of them where there are no more than `n`.
pub open spec fn tail_start(count: nat, n: nat) -> nat {
    if count < n { 0 } else { (count - n) as nat }
}

/// The byte offset a tail of the last `n` lines starts at: the length of
/// the lines before it, each with its newline; the file's length where no
/// line is returned.
pub open spec fn tail_offset(bytes: Seq<u8>, n: nat) -> nat {
    let ls = rollout_lines(bytes);
    let start = tail_start(ls.len(), n);
    if start < ls.len() {
        with_newlines(ls.take(start as int)).len()
    } else {
        bytes.len()
    }
}

proof fn lemma_with_newlines_prefix(ls: Seq<Seq<u8>>, k: int)
    requires
        0 <= k <= ls.len(),
    ensures
        has_bytes_prefix(with_newlines(ls), with_newlines(ls.take(k))),
    decreases ls.len(),
{
    if k < ls.len() {
        lemma_with_newlines_prefix(ls.drop_last(), k);
        assert(ls.drop_last().take(k) =~= ls.take(k));
        let w = with_newlines(ls.drop_last());
        let p = with_newlines(ls.take(k));
        assert(with_newlines(ls) == w + ls.last().push(10u8));
        assert((w + ls.last().push(10u8)).take(p.len() as int) =~= w.take(p.len() as int));
    } else {
        assert(ls.take(k) =~= ls);
        assert(with_newlines(ls).take(with_newlines(ls).len() as int) =~= with_newlines(ls));
    }
}

proof fn lemma_prefix_trans(a: Seq<u8>, b: Seq<u8>, c: Seq<u8>)
    requires
        has_bytes_prefix(a, b),
        has_bytes_prefix(b, c),
    ensures
        has_bytes_prefix(a, c),
{
    assert(a.take(c.len() as int) =~= b.take(c.len() as int));
}

pub open spec fn has_bytes_prefix(s: Seq<u8>, p: Seq<u8>) -> bool {
    p.len() <= s.len() && s.take(p.len() as int) == p
}

/// The last `n` lines of a rollout file, and the offset the first of them
/// starts at: the bytes before it are exactly the lines before it, each
/// with its newline. Asked for no line, it returns none, at the file's end.
pub fn tail_lines(bytes: &[u8], n: usize) -> (r: (Vec<Vec<u8>>, u64))
    ensures
        ({
            let ls = rollout_lines(bytes@);
            let start = tail_start(ls.len(), n as nat);
            &&& r.0@.len() == ls.len() - start
            &&& forall|i: int| 0 <= i < r.0@.len() ==> (#[trigger] r.0@[i])@ == ls[start + i]
            &&& r.1 as int == tail_offset(bytes@, n as nat)
            &&& start < ls.len() ==> bytes@.take(r.1 as int) == with_newlines(ls.take(start as int))
            &&& n == 0 ==> r.0@.len() == 0 && r.1 as int == bytes@.len()
        }),
{
    let mut done: Vec<Vec<u8>> = Vec::new();
    let mut cur: Vec<u8> = Vec::new();
    let ghost dv: Seq<Seq<u8>> = Seq::empty();
    let mut i: usize = 0;
    while i < bytes.len()
        invariant
            i <= bytes@.len(),
            dv.len() == done@.len(),
            forall|j: int| 0 <= j < dv.len() ==> (#[trigger] done@[j])@ == dv[j],
            (dv, cur@) == piece_state(bytes@.take(i as int), 10u8),
            with_newlines(dv) + cur@ == bytes@.take(i as int),
        decreases bytes@.len() - i,
    {
        let b = bytes[i];
        proof {
            assert(bytes@.take(i + 1).drop_last() =~= bytes@.take(i as int));
            assert(bytes@.take(i + 1).last() == b);
        }
        if b == 10u8 {
            let mut piece: Vec<u8> = Vec::new();
            std::mem::swap(&mut piece, &mut cur);
            proof {
                let ndv = dv.push(piece@);
                assert(ndv.drop_last() =~= dv);
                assert(with_newlines(ndv) =~= bytes@.take(i + 1));
                dv = ndv;
            }
            done.push(piece);
        } else {
            cur.push(b);
            assert(with_newlines(dv) + cur@ =~= bytes@.take(i + 1));
        }
        i = i + 1;
    }
    assert(bytes@.take(bytes@.len() as int) =~= bytes@);
    let ghost ls = rollout_lines(bytes@);
    let ghost done_part = dv;
    let ghost cur_part = cur@;
    if cur.len() > 0 {
        proof {
            dv = dv.push(cur@);
        }
        done.push(cur);
    }
    assert(dv =~= ls);
    let count = done.len();
    let start: usize = if count < n { 0 } else { count - n };
    let mut offset: u64 = 0;
    if start < count {
        proof {
            assert(start <= done_part.len());
            assert(ls.take(start as int) =~= done_part.take(start as int));
            lemma_with_newlines_prefix(done_part, start as int);
            assert((with_newlines(done_part) + cur_part).take(with_newlines(done_part).len() as int)
                =~= with_newlines(done_part));
            assert(has_bytes_prefix(bytes@, with_newlines(done_part)));
            lemma_prefix_trans(bytes@, with_newlines(done_part), with_newlines(ls.take(start as int)));
        }
        let mut k: usize = 0;
        while k < start
            invariant
                start <= done@.len(),
                dv == ls,
                dv.len() == done@.len(),
                forall|j: int| 0 <= j < dv.len() ==> (#[trigger] done@[j])@ == dv[j],
                k <= start,
                offset as int == with_newlines(ls.take(k as int)).len(),
                with_newlines(ls.take(start as int)).len() <= bytes@.len(),
                bytes@.len() <= usize::MAX,
            decreases start - k,
        {
            proof {
                lemma_with_newlines_prefix(ls.take(start as int), k + 1);
                assert(ls.take(start as int).take(k + 1) =~= ls.take(k + 1));
                assert(ls.take(k + 1).drop_last() =~= ls.take(k as int));
                assert(done@[k as int]@ == ls[k as int]);
            }
            offset = offset + done[k].len() as u64 + 1;
            k = k + 1;
        }
        proof {
            assert(ls.take(start as int).take(start as int) =~= ls.take(start as int));
            assert(has_bytes_prefix(bytes@, with_newlines(ls.take(start as int))));
        }
    } else {
        offset = bytes.len() as u64;
    }
    let mut out: Vec<Vec<u8>> = Vec::new();
    let mut j: usize = start;
    while j < count
        invariant
            count == done@.len(),
            dv == ls,
            dv.len() == done@.len(),
            forall|q: int| 0 <= q < dv.len() ==> (#[trigger] done@[q])@ == dv[q],
            start <= j <= count,
            out@.len() == j - start,
            forall|q: int| 0 <= q < out@.len() ==> (#[trigger] out@[q])@ == ls[start + q],
        decreases count - j,
    {
        let mut line: Vec<u8> = Vec::new();
        let src = &done[j];
        let mut q: usize = 0;
        while q < src.len()
            invariant
                q <= src@.len(),
                line@ == src@.take(q as int),
            decreases src@.len() - q,
        {
            line.push(src[q]);
            q = q + 1;
            assert(line@ =~= src@.take(q as int));
        }
        assert(line@ =~= src@);
        out.push(line);
        j = j + 1;
    }
    (out, offset)
}

/// The text of the last `n` lines of a rollout file, each decoded
/// leniently (valid UTF-8 exactly), and the byte offset they start at.
pub fn tail_text(bytes: &[u8], n: usize) -> (r: (Vec<String>, u64))
    ensures
        ({
            let ls = rollout_lines(bytes@);
            let start = tail_start(ls.len(), n as nat);
            &&& r.0@.len() == ls.len() - start
            &&& forall|i: int| 0 <= i < r.0@.len() ==> (#[trigger] r.0@[i])@ == utf8_lossy(ls[start + i])
            &&& forall|i: int|
                0 <= i < r.0@.len() && valid_utf8(ls[start + i]) ==> (#[trigger] r.0@[i])@ == decode_utf8(
                    ls[start + i],
                )
            &&& r.1 as int == tail_offset(bytes@, n as nat)
            &&& start < ls.len() ==> bytes@.take(r.1 as int) == with_newlines(ls.take(start as int))
            &&& n == 0 ==> r.0@.len() == 0 && r.1 as int == bytes@.len()
        }),
{
    let (lines, offset) = tail_lines(bytes, n);
    let ghost ls = rollout_lines(bytes@);
    let ghost start = tail_start(ls.len(), n as nat);
    let mut out: Vec<String> = Vec::new();
    let mut i: usize = 0;
    while i < lines.len()
        invariant
            lines@.len() == ls.len() - start,
            forall|q: int| 0 <= q < lines@.len() ==> (#[trigger] lines@[q])@ == ls[start + q],
            i <= lines@.len(),
            out@.len() == i,
            forall|q: int| 0 <= q < i ==> (#[trigger] out@[q])@ == utf8_lossy(ls[start + q]),
            forall|q: int|
                0 <= q < i && valid_utf8(ls[start + q]) ==> (#[trigger] out@[q])@ == decode_utf8(ls[start + q]),
        decreases lines@.len() - i,
    {
        out.push(lossy_string(lines[i].as_slice()));
        i = i + 1;
    }
    (out, offset)
}

proof fn lemma_pieces_rebuild(s: Seq<u8>)
    ensures
        with_newlines(piece_state(s, 10u8).0) + piece_state(s, 10u8).1 == s,
        forall|i: int|
            0 <= i < piece_state(s, 10u8).0.len() ==> no_newline(#[trigger] piece_state(s, 10u8).0[i]),
        no_newline(piece_state(s, 10u8).1),
    decreases s.len(),
{
    if s.len() > 0 {
        let p = s.drop_last();
        lemma_pieces_rebuild(p);
        let (d, c) = piece_state(p, 10u8);
        if s.last() == 10u8 {
            assert(d.push(c).drop_last() =~= d);
            assert(s =~= p.push(10u8));
            assert(with_newlines(d.push(c)) == with_newlines(d) + c.push(10u8));
            assert(with_newlines(d) + c.push(10u8) =~= (with_newlines(d) + c).push(10u8));
            assert(with_newlines(d.push(c)) + Seq::<u8>::empty() =~= s);
            assert forall|i: int| 0 <= i < d.push(c).len() implies no_newline(#[trigger] d.push(c)[i]) by {
                if i < d.len() {
                    assert(d.push(c)[i] == d[i]);
                }
            }
        } else {
            assert(s =~= p.push(s.last()));
            assert(with_newlines(d) + c.push(s.last()) =~= (with_newlines(d) + c).push(s.last()));
            assert forall|i: int| 0 <= i < c.push(s.last()).len() implies c.push(s.last())[i] != 10u8 by {
                if i < c.len() {
                    assert(c.push(s.last())[i] == c[i]);
                }
            }
        }
    }
}

proof fn lemma_piece_state_append_text(s: Seq<u8>, l: Seq<u8>)
    requires
        no_newline(l),
    ensures
        piece_state(s + l, 10u8) == (piece_state(s, 10u8).0, piece_state(s, 10u8).1 + l),
    decreases l.len(),
{
    if l.len() == 0 {
        assert(s + l =~= s);
        assert(piece_state(s, 10u8).1 + l =~= piece_state(s, 10u8).1);
    } else {
        let k = l.drop_last();
        assert forall|i: int| 0 <= i < k.len() implies k[i] != 10u8 by {
            assert(k[i] == l[i]);
        }
        lemma_piece_state_append_text(s, k);
        assert((s + l).drop_last() =~= s + k);
        assert((s + l).last() == l.last());
        assert(l.last() != 10u8);
        assert((piece_state(s, 10u8).1 + k).push(l.last()) =~= piece_state(s, 10u8).1 + l);
    }
}

proof fn lemma_piece_state_lines(ls: Seq<Seq<u8>>)
    requires
        forall|i: int| 0 <= i < ls.len() ==> no_newline(#[trigger] ls[i]),
    ensures
        piece_state(with_newlines(ls), 10u8) == (ls, Seq::<u8>::empty()),
    decreases ls.len(),
{
    if ls.len() > 0 {
        let front = ls.drop_last();
        assert forall|i: int| 0 <= i < front.len() implies no_newline(#[trigger] front[i]) by {
            assert(front[i] == ls[i]);
        }
        lemma_piece_state_lines(front);
        let w = with_newlines(front);
        let l = ls.last();
        assert(no_newline(ls[ls.len() - 1]));
        lemma_piece_state_append_text(w, l);
        assert(Seq::<u8>::empty() + l =~= l);
        assert(with_newlines(ls) == w + l.push(10u8));
        assert((w + l.push(10u8)).drop_last() =~= w + l);
        assert((w + l.push(10u8)).last() == 10u8);
        assert(front.push(l) =~= ls);
    }
}

proof fn lemma_piece_state_after_lines(ls: Seq<Seq<u8>>, t: Seq<u8>)
    requires
        forall|i: int| 0 <= i < ls.len() ==> no_newline(#[trigger] ls[i]),
    ensures
        piece_state(with_newlines(ls) + t, 10u8) == (ls + piece_state(t, 10u8).0, piece_state(t, 10u8).1),
    decreases t.len(),
{
    if t.len() == 0 {
        lemma_piece_state_lines(ls);
        assert(with_newlines(ls) + t =~= with_newlines(ls));
        assert(ls + Seq::<Seq<u8>>::empty() =~= ls);
    } else {
        let u = t.drop_last();
        lemma_piece_state_after_lines(ls, u);
        assert((with_newlines(ls) + t).drop_last() =~= with_newlines(ls) + u);
        assert((with_newlines(ls) + t).last() == t.last());
        let (d, c) = piece_state(u, 10u8);
        if t.last() == 10u8 {
            assert((ls + d).push(c) =~= ls + d.push(c));
        }
    }
}

/// Law: the offset is where the tail starts. It lies within the file; the
/// bytes before it are the lines before the tail, each with its newline
/// (where the tail is not empty); and read from the offset on, the file
/// holds exactly the lines returned, so a reader that resumes there loses
/// and repeats nothing.
pub proof fn law_tail_starts_at_offset(bytes: Seq<u8>, n: usize)
    ensures
        ({
            let ls = rollout_lines(bytes);
            let start = tail_start(ls.len(), n as nat);
            let off = tail_offset(bytes, n as nat);
            &&& off <= bytes.len()
            &&& start < ls.len() ==> bytes.take(off as int) == with_newlines(ls.take(start as int))
            &&& rollout_lines(bytes.skip(off as int)) == ls.skip(start as int)
        }),
{
    let ls = rollout_lines(bytes);
    let start = tail_start(ls.len(), n as nat);
    if start >= ls.len() {
        assert(bytes.skip(bytes.len() as int) =~= Seq::<u8>::empty());
        assert(piece_state(Seq::<u8>::empty(), 10u8) == (Seq::<Seq<u8>>::empty(), Seq::<u8>::empty()));
        assert(ls.skip(start as int) =~= Seq::<Seq<u8>>::empty());
    } else {
        lemma_tail_within_lines(bytes, start);
    }
}

proof fn lemma_tail_within_lines(bytes: Seq<u8>, start: nat)
    requires
        start < rollout_lines(bytes).len(),
    ensures
        ({
            let ls = rollout_lines(bytes);
            let off = with_newlines(ls.take(start as int)).len();
            &&& off <= bytes.len()
            &&& bytes.take(off as int) == with_newlines(ls.take(start as int))
            &&& rollout_lines(bytes.skip(off as int)) == ls.skip(start as int)
        }),
{
    let ls = rollout_lines(bytes);
    let (done, cur) = piece_state(bytes, 10u8);
    lemma_pieces_rebuild(bytes);
    assert(start <= done.len());
    assert(ls.take(start as int) =~= done.take(start as int));
    lemma_with_newlines_prefix(done, start as int);
    assert((with_newlines(done) + cur).take(with_newlines(done).len() as int) =~= with_newlines(done));
    lemma_prefix_trans(bytes, with_newlines(done), with_newlines(ls.take(start as int)));
    let a = ls.take(start as int);
    let off = with_newlines(a).len();
    let rest = bytes.skip(off as int);
    assert(bytes =~= with_newlines(a) + rest);
    assert forall|i: int| 0 <= i < a.len() implies no_newline(#[trigger] a[i]) by {
        assert(a[i] == done[i]);
    }
    lemma_piece_state_after_lines(a, rest);
    let (d2, c2) = piece_state(rest, 10u8);
    if c2.len() == 0 {
        assert(rollout_lines(rest) == d2);
        assert(ls == a + d2);
    } else {
        assert(rollout_lines(rest) == d2.push(c2));
        assert(ls == (a + d2).push(c2));
        assert((a + d2).push(c2) =~= a + d2.push(c2));
    }
    assert(ls.skip(start as int) =~= rollout_lines(rest));
}

/// Splitting at each `/`, left to right, dropping empty pieces: the
/// finished components and the one being read.
pub open spec fn component_state(s: Seq<char>) -> (Seq<Seq<char>>, Seq<char>)
    decreases s.len(),
{
    if s.len() == 0 {
        (Seq::empty(), Seq::empty())
    } else {
        let (done, cur) = component_state(s.drop_last());
        if s.last() == '/' {
            if cur.len() > 0 {
                (done.push(cur), Seq::empty())
            } else {
                (done, cur)
            }
        } else {
            (done, cur.push(s.last()))
        }
    }
}

/// The components of a resolved path: its non-empty `/`-separated pieces.
pub open spec fn components(s: Seq<char>) -> Seq<Seq<char>> {
    let (done, cur) = component_state(s);
    if cur.len() > 0 {
        done.push(cur)
    } else {
        done
    }
}

pub open spec fn is_absolute(s: Seq<char>) -> bool {
    s.len() > 0 && s[0] == '/'
}

/// `Path::starts_with` on resolved paths: `path` lies under (or is) `root`
/// component by component.
pub open spec fn lies_under(path: Seq<char>, root: Seq<char>) -> bool {
    let pc = components(path);
    let rc = components(root);
    &&& is_absolute(path) == is_absolute(root)
    &&& rc.len() <= pc.len()
    &&& pc.take(rc.len() as int) == rc
}

/// A reference may be tailed when, resolved, it is a `rollout-*.jsonl` file
/// under the resolved `~/.codex/sessions`.
pub open spec fn tailable(path: Seq<char>, root: Seq<char>) -> bool {
    &&& lies_under(path, root)
    &&& match file_name(path) {
        Some(n) => has_prefix(n, "rollout-"@) && has_suffix(n, ".jsonl"@),
        None => false,
    }
}

/// Law: a tail holds the last `n` lines, or all of them where there are
/// fewer: out of `count` lines, `min(n, count)` are returned, and they are
/// the last ones.
pub proof fn law_tail_holds_last_n_lines(count: nat, n: nat)
    ensures
        tail_start(count, n) <= count,
        count - tail_start(count, n) == (if n <= count { n } else { count }),
{
}

proof fn lemma_component_state_after_slash(a: Seq<char>)
    ensures
        component_state(a.push('/')) == (components(a), Seq::<char>::empty()),
{
    assert(a.push('/').drop_last() =~= a);
}

proof fn lemma_component_state_concat(x: Seq<char>, b: Seq<char>)
    requires
        component_state(x).1.len() == 0,
    ensures
        component_state(x + b) == (component_state(x).0 + component_state(b).0, component_state(b).1),
    decreases b.len(),
{
    if b.len() == 0 {
        assert(x + b =~= x);
        assert(component_state(x).0 + Seq::<Seq<char>>::empty() =~= component_state(x).0);
    } else {
        let b0 = b.drop_last();
        lemma_component_state_concat(x, b0);
        assert((x + b).drop_last() =~= x + b0);
        assert((x + b).last() == b.last());
        let (d, c) = component_state(b0);
        let dx = component_state(x).0;
        assert((dx + d).push(c) =~= dx + d.push(c));
    }
}

/// The components of `a`, a separator and `b` are those of `a` followed
/// by those of `b`.
proof fn lemma_components_join(a: Seq<char>, b: Seq<char>)
    ensures
        components(a.push('/') + b) == components(a) + components(b),
{
    lemma_component_state_after_slash(a);
    lemma_component_state_concat(a.push('/'), b);
    let (d, c) = component_state(b);
    if c.len() > 0 {
        assert((components(a) + d).push(c) =~= components(a) + d.push(c));
    }
}

/// Law: lying under the root is `Path::starts_with` and nothing more, at
/// any depth. For an absolute root, a rollout file name and any directory
/// path `dirs` (empty included), the file `root/dirs/name` may be tailed.
pub proof fn law_rollouts_tailable_at_any_depth(root: Seq<char>, dirs: Seq<char>, name: Seq<char>)
    requires
        is_absolute(root),
        has_prefix(name, "rollout-"@),
        has_suffix(name, ".jsonl"@),
        forall|i: int| 0 <= i < name.len() ==> name[i] != '/',
    ensures
        tailable(root.push('/') + dirs.push('/') + name, root),
{
    reveal_strlit("rollout-");
    reveal_strlit(".jsonl");
    reveal_strlit(".");
    reveal_strlit("..");
    let mid = root.push('/') + dirs;
    let p = mid.push('/') + name;
    assert(p =~= root.push('/') + dirs.push('/') + name);
    // components: root's, then the directories', then the name
    lemma_components_join(mid, name);
    lemma_components_join(root, dirs);
    let rc = components(root);
    let pc = components(p);
    assert(components(mid) == rc + components(dirs));
    assert(pc == rc + components(dirs) + components(name));
    assert(pc.take(rc.len() as int) =~= rc);
    assert(p[0] == root[0]);
    // the file name is `name`
    assert(name.len() > 0);
    assert(p[mid.len() as int] == '/');
    crate::text::lemma_last_index_unique(p, '/', mid.len() as int);
    assert(p.skip(mid.len() as int + 1) =~= name);
    assert(name.take(8)[0] == name[0]);
    assert("rollout-"@[0] == 'r');
    assert(name[0] == 'r');
    assert(name != "."@);
    assert(name != ".."@);
}

fn split_components(s: &[char]) -> (r: Vec<Vec<char>>)
    ensures
        r@.len() == components(s@).len(),
        forall|i: int| 0 <= i < r@.len() ==> (#[trigger] r@[i])@ == components(s@)[i],
{
    let mut done: Vec<Vec<char>> = Vec::new();
    let ghost dv: Seq<Seq<char>> = Seq::empty();
    let mut cur: Vec<char> = Vec::new();
    let mut i: usize = 0;
    while i < s.len()
        invariant
            i <= s@.len(),
            dv.len() == done@.len(),
            forall|q: int| 0 <= q < dv.len() ==> (#[trigger] done@[q])@ == dv[q],
            (dv, cur@) == component_state(s@.take(i as int)),
        decreases s@.len() - i,
    {
        let c = s[i];
        proof {
            assert(s@.take(i + 1).drop_last() =~= s@.take(i as int));
            assert(s@.take(i + 1).last() == c);
        }
        if c == '/' {
            if cur.len() > 0 {
                let mut piece: Vec<char> = Vec::new();
                std::mem::swap(&mut piece, &mut cur);
                proof {
                    dv = dv.push(piece@);
                }
                done.push(piece);
            }
        } else {
            cur.push(c);
        }
        i = i + 1;
    }
    assert(s@.take(s@.len() as int) =~= s@);
    if cur.len() > 0 {
        proof {
            dv = dv.push(cur@);
        }
        done.push(cur);
    }
    done
}

/// Whether the resolved reference `path` may be tailed, given the resolved
/// `~/.codex/sessions` directory `root`.
pub fn is_tailable(path: &str, root: &str) -> (r: bool)
    ensures
        r == tailable(path@, root@),
{
    let p = chars_of(path);
    let q = chars_of(root);
    let abs_p = p.len() > 0 && p[0] == '/';
    let abs_q = q.len() > 0 && q[0] == '/';
    if abs_p != abs_q {
        return false;
    }
    let pc = split_components(p.as_slice());
    let rc = split_components(q.as_slice());
    if rc.len() > pc.len() {
        return false;
    }
    let mut i: usize = 0;
    while i < rc.len()
        invariant
            rc@.len() <= pc@.len(),
            rc@.len() == components(q@).len(),
            pc@.len() == components(p@).len(),
            forall|k: int| 0 <= k < rc@.len() ==> (#[trigger] rc@[k])@ == components(q@)[k],
            forall|k: int| 0 <= k < pc@.len() ==> (#[trigger] pc@[k])@ == components(p@)[k],
            i <= rc@.len(),
            forall|k: int| 0 <= k < i ==> components(p@)[k] == components(q@)[k],
            p@ == path@,
            q@ == root@,
        decreases rc@.len() - i,
    {
        if !same_chars(pc[i].as_slice(), rc[i].as_slice()) {
            assert(components(p@).take(rc@.len() as int)[i as int] != components(q@)[i as int]);
            return false;
        }
        i = i + 1;
    }
    assert(components(p@).take(rc@.len() as int) =~= components(q@));
    proof {
        reveal_strlit("rollout-");
        reveal_strlit(".jsonl");
    }
    let slash = find_last(p.as_slice(), '/');
    let from: usize = match slash {
        Some(k) => k + 1,
        None => 0,
    };
    let mut name: Vec<char> = Vec::new();
    let mut j = from;
    while j < p.len()
        invariant
            from <= j <= p@.len(),
            name@ == p@.subrange(from as int, j as int),
        decreases p@.len() - j,
    {
        name.push(p[j]);
        j = j + 1;
        assert(name@ =~= p@.subrange(from as int, j as int));
    }
    assert(name@ =~= p@.skip(crate::text::last_index(p@, '/') + 1));
    let prefix = chars_of("rollout-");
    let suffix = chars_of(".jsonl");
    if !starts_with(name.as_slice(), prefix.as_slice()) || !ends_with(name.as_slice(), suffix.as_slice()) {
        return false;
    }
    proof {
        reveal_strlit(".");
        reveal_strlit("..");
        assert(name@ != "."@);
        assert(name@ != ".."@);
    }
    true
}

/// Why a reference cannot be tailed.
pub enum TailError {
    /// The reference does not resolve.
    NotFound,
    /// `~/.codex/sessions` does not resolve.
    NoRoot,
    /// It resolves outside `~/.codex/sessions`, or not to a rollout file.
    NotRollout,
}

impl TailError {
    pub open spec fn message_spec(&self) -> Seq<char> {
        match self {
            TailError::NotFound => "session file not found"@,
            TailError::NoRoot => "no ~/.codex/sessions"@,
            TailError::NotRollout => "reference is not a codex rollout file"@,
        }
    }

    pub fn message(&self) -> (m: String)
        ensures
            m@ == self.message_spec(),
    {
        match self {
            TailError::NotFound => "session file not found".to_owned(),
            TailError::NoRoot => "no ~/.codex/sessions".to_owned(),
            TailError::NotRollout => "reference is not a codex rollout file".to_owned(),
        }
    }
}

/// The checks of `session_tail` before the file is read, in their order:
/// the reference must resolve, the sessions root must resolve, and the one
/// must lie under the other with a rollout file name.
pub fn check_reference(resolved: Option<String>, root: Option<String>) -> (r: Result<String, TailError>)
    ensures
        match resolved {
            None => r matches Err(TailError::NotFound),
            Some(p) => match root {
                None => r matches Err(TailError::NoRoot),
                Some(q) => if tailable(p@, q@) {
                    r matches Ok(x) && x@ == p@
                } else {
                    r matches Err(TailError::NotRollout)
                },
            },
        },
{
    match resolved {
        None => Err(TailError::NotFound),
        Some(p) => match root {
            None => Err(TailError::NoRoot),
            Some(q) => if is_tailable(p.as_str(), q.as_str()) {
                Ok(p)
            } else {
                Err(TailError::NotRollout)
            },
        },
    }
}

} // verus!
