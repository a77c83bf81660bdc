//! Splitting a raw byte stream into CRLF-terminated frames.
//!
//! The framer consumes the stream one byte at a time and completes a frame
//! exactly when a carriage return is immediately followed by a line feed; the
//! frame is the accumulated content with the CRLF pair stripped.  A lone CR or
//! a lone LF never splits.

use vstd::prelude::*;

verus! {

/// The pending bytes end with a carriage return.
pub open spec fn ends_cr(p: Seq<u8>) -> bool {
    p.len() > 0 && p.last() == 13u8
}

/// The pending bytes after one more byte of the stream.
pub open spec fn step_pending(p: Seq<u8>, b: u8) -> Seq<u8> {
    if ends_cr(p) && b == 10u8 {
        Seq::empty()
    } else {
        p.push(b)
    }
}

/// The frame completed by one more byte of the stream, if any: the pending
/// content with its final carriage return stripped.
pub open spec fn step_frame(p: Seq<u8>, b: u8) -> Option<Seq<u8>> {
    if ends_cr(p) && b == 10u8 {
        Some(p.drop_last())
    } else {
        None
    }
}

/// The pending bytes after a whole stream.
pub open spec fn run_pending(p: Seq<u8>, s: Seq<u8>) -> Seq<u8>
    decreases s.len(),
{
    if s.len() == 0 {
        p
    } else {
        run_pending(step_pending(p, s.first()), s.drop_first())
    }
}

/// All frames completed over a whole stream, in order.
pub open spec fn run_frames(p: Seq<u8>, s: Seq<u8>) -> Seq<Seq<u8>>
    decreases s.len(),
{
    if s.len() == 0 {
        Seq::empty()
    } else {
        let rest = run_frames(step_pending(p, s.first()), s.drop_first());
        match step_frame(p, s.first()) {
            Some(f) => seq![f] + rest,
            None => rest,
        }
    }
}

/// The bytes contain a CR immediately followed by an LF somewhere.
pub open spec fn contains_crlf(l: Seq<u8>) -> bool {
    exists|i: int| 0 <= i && i + 1 < l.len() && #[trigger] l[i] == 13u8 && l[i + 1] == 10u8
}

/// The lines joined back into one stream, each terminated by a CRLF pair.
pub open spec fn encode_lines(lines: Seq<Seq<u8>>) -> Seq<u8>
    decreases lines.len(),
{
    if lines.len() == 0 {
        Seq::empty()
    } else {
        (lines.first() + seq![13u8, 10u8]) + encode_lines(lines.drop_first())
    }
}

/// Running the framer over a concatenation is running it over each part in
/// turn, the second from where the first left off.
pub proof fn lemma_run_append(p: Seq<u8>, s1: Seq<u8>, s2: Seq<u8>)
    ensures
        run_pending(p, s1 + s2) == run_pending(run_pending(p, s1), s2),
        run_frames(p, s1 + s2) == run_frames(p, s1) + run_frames(run_pending(p, s1), s2),
    decreases s1.len(),
{
    if s1.len() == 0 {
        assert(s1 + s2 =~= s2);
        assert(run_frames(p, s1) + run_frames(run_pending(p, s1), s2) =~= run_frames(p, s2));
    } else {
        assert((s1 + s2).first() == s1.first());
        assert((s1 + s2).drop_first() =~= s1.drop_first() + s2);
        lemma_run_append(step_pending(p, s1.first()), s1.drop_first(), s2);
        assert(run_frames(p, s1 + s2) =~= run_frames(p, s1) + run_frames(
            run_pending(p, s1),
            s2,
        ));
    }
}

/// Over bytes with no CRLF pair anywhere, the framer completes nothing and
/// only accumulates.
pub proof fn lemma_run_no_crlf(p: Seq<u8>, s: Seq<u8>)
    requires
        !contains_crlf(p + s),
    ensures
        run_frames(p, s) == Seq::<Seq<u8>>::empty(),
        run_pending(p, s) == p + s,
    decreases s.len(),
{
    if s.len() == 0 {
        assert(p + s =~= p);
    } else {
        let b = s.first();
        if ends_cr(p) && b == 10u8 {
            let i = p.len() - 1;
            assert((p + s)[i] == 13u8 && (p + s)[i + 1] == 10u8);
            assert(contains_crlf(p + s));
        }
        assert(step_pending(p, b) + s.drop_first() =~= p + s);
        lemma_run_no_crlf(step_pending(p, b), s.drop_first());
    }
}

/// A stream of properly CRLF-terminated lines, none containing a CRLF pair of
/// its own, is framed back into exactly those lines, in order and with the
/// CRLF stripped, and leaves nothing pending.
pub proof fn lemma_framer_splits_lines(lines: Seq<Seq<u8>>)
    requires
        forall|i: int| 0 <= i < lines.len() ==> !contains_crlf(#[trigger] lines[i]),
    ensures
        run_frames(Seq::empty(), encode_lines(lines)) == lines,
        run_pending(Seq::empty(), encode_lines(lines)) == Seq::<u8>::empty(),
    decreases lines.len(),
{
    let e: Seq<u8> = Seq::empty();
    if lines.len() == 0 {
        assert(run_frames(e, encode_lines(lines)) =~= lines);
    } else {
        let l0 = lines.first();
        let crlf = seq![13u8, 10u8];
        let rest = encode_lines(lines.drop_first());
        assert(encode_lines(lines) == (l0 + crlf) + rest);
        lemma_run_append(e, l0 + crlf, rest);
        lemma_run_append(e, l0, crlf);
        assert(e + l0 =~= l0);
        assert(!contains_crlf(l0));
        lemma_run_no_crlf(e, l0);
        lemma_run_crlf(l0);
        assert(run_frames(e, l0 + crlf) =~= seq![l0]);
        assert(run_pending(e, l0 + crlf) =~= e);
        lemma_framer_splits_lines(lines.drop_first());
        assert(run_frames(e, encode_lines(lines)) =~= seq![l0] + lines.drop_first());
        assert(seq![l0] + lines.drop_first() =~= lines);
    }
}

/// One CRLF pair after any pending content completes exactly that content,
/// whether or not the content itself ends with a CR.
proof fn lemma_run_crlf(p: Seq<u8>)
    ensures
        run_frames(p, seq![13u8, 10u8]) == seq![p],
        run_pending(p, seq![13u8, 10u8]) == Seq::<u8>::empty(),
{
    reveal_with_fuel(run_frames, 3);
    reveal_with_fuel(run_pending, 3);
    let s = seq![13u8, 10u8];
    assert(s.first() == 13u8);
    assert(s.drop_first() =~= seq![10u8]);
    let p1 = step_pending(p, 13u8);
    assert(p1 == p.push(13u8));
    assert(ends_cr(p1));
    let s1 = seq![10u8];
    assert(s1.first() == 10u8);
    assert(s1.drop_first() =~= Seq::<u8>::empty());
    assert(p1.drop_last() =~= p);
    assert(run_frames(p1, s1) =~= seq![p]);
    assert(run_frames(p, s) =~= seq![p]);
}

/// A lone CR never completes a frame: no frame is completed at the CR itself,
/// and none at the next byte either when that byte is not an LF.
pub proof fn lemma_lone_cr_never_splits(p: Seq<u8>, s: Seq<u8>, i: int)
    requires
        0 <= i < s.len(),
        s[i] == 13u8,
        i + 1 < s.len() ==> s[i + 1] != 10u8,
    ensures
        run_frames(p, s.subrange(0, i + 1)) == run_frames(p, s.subrange(0, i)),
        i + 1 < s.len() ==> run_frames(p, s.subrange(0, i + 2)) == run_frames(
            p,
            s.subrange(0, i),
        ),
{
    let s0 = s.subrange(0, i);
    let s1 = s.subrange(0, i + 1);
    assert(s1 =~= s0 + seq![s[i]]);
    lemma_run_append(p, s0, seq![s[i]]);
    lemma_run_one_no_lf(run_pending(p, s0), s[i]);
    assert(run_frames(p, s1) =~= run_frames(p, s0));
    if i + 1 < s.len() {
        let s2 = s.subrange(0, i + 2);
        assert(s2 =~= s1 + seq![s[i + 1]]);
        lemma_run_append(p, s1, seq![s[i + 1]]);
        lemma_run_one_no_lf(run_pending(p, s1), s[i + 1]);
        assert(run_frames(p, s2) =~= run_frames(p, s0));
    }
}

/// A single byte that is not an LF never completes a frame.
proof fn lemma_run_one_no_lf(p: Seq<u8>, b: u8)
    requires
        b != 10u8,
    ensures
        run_frames(p, seq![b]) == Seq::<Seq<u8>>::empty(),
{
    reveal_with_fuel(run_frames, 2);
    let s = seq![b];
    assert(s.first() == b);
    assert(s.drop_first() =~= Seq::<u8>::empty());
    assert(run_frames(p, s) =~= Seq::<Seq<u8>>::empty());
}

/// Accumulates stream bytes and yields a frame at each CRLF pair.
pub struct Framer {
    buf: Vec<u8>,
    prev_cr: bool,
}

impl View for Framer {
    type V = Seq<u8>;

    closed spec fn view(&self) -> Seq<u8> {
        self.buf@
    }
}

impl Framer {
    /// The cached flag agrees with the pending bytes.
    pub closed spec fn wf(&self) -> bool {
        self.prev_cr == ends_cr(self.buf@)
    }

    /// A fresh framer with nothing pending.
    pub fn new() -> (f: Framer)
        ensures
            f.wf(),
            f@ == Seq::<u8>::empty(),
    {
        Framer { buf: Vec::new(), prev_cr: false }
    }

    /// Consume one byte of the stream; yield the completed frame, CRLF
    /// stripped, exactly when the byte is an LF right after a CR.
    pub fn push_byte(&mut self, b: u8) -> (frame: Option<Vec<u8>>)
        requires
            old(self).wf(),
        ensures
            final(self).wf(),
            final(self)@ == step_pending(old(self)@, b),
            match frame {
                Some(f) => step_frame(old(self)@, b) == Some(f@),
                None => step_frame(old(self)@, b) is None,
            },
    {
        if self.prev_cr && b == 10u8 {
            let mut f: Vec<u8> = Vec::new();
            std::mem::swap(&mut f, &mut self.buf);
            f.pop();
            self.prev_cr = false;
            Some(f)
        } else {
            self.buf.push(b);
            self.prev_cr = b == 13u8;
            None
        }
    }
}

} // verus!
