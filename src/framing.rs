use vstd::prelude::*;

verus! {

/// Lines end with this byte, the ASCII newline.
pub const LINE_SEPARATOR: u8 = 10;

/// The complete lines, without their separators, that the bytes `s` finish
/// when they follow the unterminated fragment `pending`; and the new
/// unterminated fragment.
pub open spec fn frame(pending: Seq<u8>, s: Seq<u8>) -> (Seq<Seq<u8>>, Seq<u8>)
    decreases s.len(),
{
    if s.len() == 0 {
        (Seq::empty(), pending)
    } else if s[0] == LINE_SEPARATOR {
        let (lines, rest) = frame(Seq::empty(), s.drop_first());
        (seq![pending] + lines, rest)
    } else {
        frame(pending.push(s[0]), s.drop_first())
    }
}

/// What a framer that starts from `pending` emits, and keeps, after the
/// reads `chunks`, one after another.
pub open spec fn feed(pending: Seq<u8>, chunks: Seq<Seq<u8>>) -> (Seq<Seq<u8>>, Seq<u8>)
    decreases chunks.len(),
{
    if chunks.len() == 0 {
        (Seq::empty(), pending)
    } else {
        let (first, rest) = frame(pending, chunks[0]);
        let (more, last) = feed(rest, chunks.drop_first());
        (first + more, last)
    }
}

/// No separator occurs in `s`.
pub open spec fn unterminated(s: Seq<u8>) -> bool {
    forall|i: int| 0 <= i < s.len() ==> s[i] != LINE_SEPARATOR
}

/// Framing `a + b` is framing `a`, then framing `b` after what `a` left over.
pub proof fn lemma_frame_split(pending: Seq<u8>, a: Seq<u8>, b: Seq<u8>)
    ensures
        frame(pending, a + b) == ({
            let (l1, r1) = frame(pending, a);
            let (l2, r2) = frame(r1, b);
            (l1 + l2, r2)
        }),
    decreases a.len(),
{
    if a.len() == 0 {
        assert(a + b =~= b);
        assert(Seq::<Seq<u8>>::empty() + frame(pending, b).0 =~= frame(pending, b).0);
    } else {
        assert((a + b).drop_first() =~= a.drop_first() + b);
        assert((a + b)[0] == a[0]);
        if a[0] == LINE_SEPARATOR {
            lemma_frame_split(Seq::empty(), a.drop_first(), b);
            let (l1, r1) = frame(Seq::empty(), a.drop_first());
            let (l2, r2) = frame(r1, b);
            assert(seq![pending] + (l1 + l2) =~= seq![pending] + l1 + l2);
        } else {
            lemma_frame_split(pending.push(a[0]), a.drop_first(), b);
        }
    }
}

/// What is left unterminated holds no separator.
pub proof fn lemma_frame_rest_unterminated(pending: Seq<u8>, s: Seq<u8>)
    requires
        unterminated(pending),
    ensures
        unterminated(frame(pending, s).1),
    decreases s.len(),
{
    if s.len() > 0 {
        if s[0] == LINE_SEPARATOR {
            lemma_frame_rest_unterminated(Seq::empty(), s.drop_first());
        } else {
            lemma_frame_rest_unterminated(pending.push(s[0]), s.drop_first());
        }
    }
}

/// Framing does not depend on how the stream was cut into reads: feeding
/// the reads one after another emits the same lines, and keeps the same
/// unterminated fragment, as framing all their bytes at once.
pub proof fn lemma_framing_ignores_chunking(pending: Seq<u8>, chunks: Seq<Seq<u8>>)
    ensures
        feed(pending, chunks) == frame(pending, chunks.flatten()),
    decreases chunks.len(),
{
    if chunks.len() == 0 {
        assert(chunks.flatten() =~= Seq::<u8>::empty());
    } else {
        let (first, rest) = frame(pending, chunks[0]);
        lemma_framing_ignores_chunking(rest, chunks.drop_first());
        assert(chunks.flatten() == chunks[0] + chunks.drop_first().flatten());
        lemma_frame_split(pending, chunks[0], chunks.drop_first().flatten());
    }
}

/// However the bytes of `"A\nBC\nD"` are cut into reads, framing them from
/// an empty buffer emits exactly the lines `"A"` and `"BC"` and keeps `"D"`.
pub proof fn lemma_framing_example(chunks: Seq<Seq<u8>>)
    requires
        chunks.flatten() == seq![65u8, 10, 66, 67, 10, 68],
    ensures
        feed(Seq::empty(), chunks) == (seq![seq![65u8], seq![66u8, 67]], seq![68u8]),
{
    lemma_framing_ignores_chunking(Seq::empty(), chunks);
    let s = seq![65u8, 10, 66, 67, 10, 68];
    let e = Seq::<u8>::empty();
    assert(s.drop_first() =~= seq![10u8, 66, 67, 10, 68]);
    assert(s.drop_first().drop_first() =~= seq![66u8, 67, 10, 68]);
    assert(seq![66u8, 67, 10, 68].drop_first() =~= seq![67u8, 10, 68]);
    assert(seq![67u8, 10, 68].drop_first() =~= seq![10u8, 68]);
    assert(seq![10u8, 68].drop_first() =~= seq![68u8]);
    assert(seq![68u8].drop_first() =~= e);
    assert(e.push(65u8) =~= seq![65u8]);
    assert(e.push(66u8) =~= seq![66u8]);
    assert(seq![66u8].push(67u8) =~= seq![66u8, 67]);
    assert(e.push(68u8) =~= seq![68u8]);
    let f5 = frame(e, seq![68u8]);
    assert(f5 == frame(seq![68u8], e));
    let f4 = frame(e, seq![10u8, 68]);
    assert(f4 == (seq![e] + f5.0, f5.1));
    let f3 = frame(seq![66u8], seq![67u8, 10, 68]);
    assert(f3 == frame(seq![66u8, 67], seq![10u8, 68]));
    let f2 = frame(e, seq![66u8, 67, 10, 68]);
    assert(f2 == f3);
    let f1 = frame(seq![65u8], seq![10u8, 66, 67, 10, 68]);
    assert(f1 == (seq![seq![65u8]] + f2.0, f2.1));
    assert(frame(e, s) == f1);
    assert(seq![seq![65u8]] + (seq![seq![66u8, 67]] + Seq::<Seq<u8>>::empty()) =~= seq![
        seq![65u8],
        seq![66u8, 67],
    ]);
}

/// Append the bytes `data` to the unterminated fragment `buffer`, and take
/// every line that they complete out of it, in order.
pub fn frame_lines(buffer: &mut Vec<u8>, data: &[u8]) -> (lines: Vec<Vec<u8>>)
    ensures
        (lines@.map_values(|l: Vec<u8>| l@), final(buffer)@) == frame(old(buffer)@, data@),
        unterminated(old(buffer)@) ==> unterminated(final(buffer)@),
{
    let mut lines: Vec<Vec<u8>> = Vec::new();
    let mut current: Vec<u8> = Vec::new();
    std::mem::swap(&mut current, buffer);
    let ghost start = current@;
    let mut i: usize = 0;
    proof {
        assert(data@.subrange(0, data@.len() as int) =~= data@);
        assert(lines@.map_values(|l: Vec<u8>| l@) =~= Seq::<Seq<u8>>::empty());
        assert(Seq::<Seq<u8>>::empty() + frame(start, data@).0 =~= frame(start, data@).0);
    }
    while i < data.len()
        invariant
            i <= data@.len(),
            start == old(buffer)@,
            frame(start, data@) == ({
                let (ls, r) = frame(current@, data@.subrange(i as int, data@.len() as int));
                (lines@.map_values(|l: Vec<u8>| l@) + ls, r)
            }),
        decreases data@.len() - i,
    {
        let ghost tail = data@.subrange(i as int, data@.len() as int);
        assert(tail.drop_first() =~= data@.subrange(i + 1, data@.len() as int));
        let b = data[i];
        if b == LINE_SEPARATOR {
            let ghost before = lines@.map_values(|l: Vec<u8>| l@);
            let ghost cur = current@;
            let mut done: Vec<u8> = Vec::new();
            std::mem::swap(&mut done, &mut current);
            lines.push(done);
            proof {
                assert(lines@.map_values(|l: Vec<u8>| l@) =~= before.push(cur));
                let (ls, r) = frame(Seq::empty(), tail.drop_first());
                assert(before + (seq![cur] + ls) =~= before.push(cur) + ls);
            }
        } else {
            current.push(b);
        }
        i = i + 1;
    }
    proof {
        assert(data@.subrange(i as int, data@.len() as int) =~= Seq::<u8>::empty());
        assert(lines@.map_values(|l: Vec<u8>| l@) + Seq::<Seq<u8>>::empty() =~= lines@.map_values(
            |l: Vec<u8>| l@,
        ));
        if unterminated(old(buffer)@) {
            lemma_frame_rest_unterminated(old(buffer)@, data@);
        }
    }
    *buffer = current;
    lines
}

} // verus!
