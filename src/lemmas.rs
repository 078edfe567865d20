use vstd::prelude::*;

use crate::block::is_metadata;
use crate::split::{archive_lines, archive_run, archive_step, flushed, plain_lines, scan, NEWLINE};

verus! {

/// The lines written back out, each followed by a newline.
pub open spec fn join_lines(lines: Seq<Seq<u8>>) -> Seq<u8>
    decreases lines.len(),
{
    if lines.len() == 0 {
        seq![]
    } else {
        join_lines(lines.drop_last()) + lines.last().push(NEWLINE)
    }
}

/// `s` holds no newline byte.
pub open spec fn no_newline(s: Seq<u8>) -> bool {
    forall|i: int| 0 <= i < s.len() ==> s[i] != NEWLINE
}

/// Scanning two pieces one after the other is scanning them joined.
pub proof fn lemma_scan_concat(rest: Seq<u8>, x: Seq<u8>, y: Seq<u8>)
    ensures
        scan(rest, x + y) == (
            scan(rest, x).0 + scan(scan(rest, x).1, y).0,
            scan(scan(rest, x).1, y).1,
        ),
    decreases y.len(),
{
    let sx = scan(rest, x);
    if y.len() == 0 {
        assert(x + y =~= x);
        assert(sx.0 + seq![] =~= sx.0);
    } else {
        assert((x + y).drop_last() =~= x + y.drop_last());
        assert((x + y).last() == y.last());
        lemma_scan_concat(rest, x, y.drop_last());
        let prev = scan(sx.1, y.drop_last());
        if y.last() == NEWLINE {
            assert(sx.0 + prev.0.push(prev.1) =~= (sx.0 + prev.0).push(prev.1));
        }
    }
}

proof fn lemma_scan_join(rest: Seq<u8>, data: Seq<u8>)
    ensures
        join_lines(scan(rest, data).0) + scan(rest, data).1 == rest + data,
    decreases data.len(),
{
    if data.len() == 0 {
        assert(rest + data =~= rest);
        assert(seq![] + rest =~= rest);
    } else {
        lemma_scan_join(rest, data.drop_last());
        let prev = scan(rest, data.drop_last());
        assert(rest + data =~= (rest + data.drop_last()).push(data.last()));
        if data.last() == NEWLINE {
            assert(prev.0.push(prev.1).drop_last() =~= prev.0);
            assert(join_lines(prev.0) + prev.1.push(NEWLINE) + seq![] =~= (join_lines(prev.0)
                + prev.1).push(NEWLINE));
        } else {
            assert(join_lines(prev.0) + prev.1.push(data.last()) =~= (join_lines(prev.0)
                + prev.1).push(data.last()));
        }
    }
}

proof fn lemma_scan_keeps_lines_clean(rest: Seq<u8>, data: Seq<u8>)
    requires
        no_newline(rest),
    ensures
        forall|i: int| 0 <= i < scan(rest, data).0.len() ==> no_newline(#[trigger] scan(rest, data).0[i]),
        no_newline(scan(rest, data).1),
    decreases data.len(),
{
    if data.len() > 0 {
        lemma_scan_keeps_lines_clean(rest, data.drop_last());
        let prev = scan(rest, data.drop_last());
        if data.last() == NEWLINE {
            assert forall|i: int| 0 <= i < prev.0.push(prev.1).len() implies no_newline(
                #[trigger] prev.0.push(prev.1)[i],
            ) by {
                if i < prev.0.len() {
                    assert(prev.0.push(prev.1)[i] == prev.0[i]);
                }
            }
        } else {
            let r = prev.1.push(data.last());
            assert forall|i: int| 0 <= i < r.len() implies r[i] != NEWLINE by {
                if i < prev.1.len() {
                    assert(r[i] == prev.1[i]);
                }
            }
        }
    }
}

proof fn lemma_scan_without_newline(rest: Seq<u8>, data: Seq<u8>)
    requires
        no_newline(data),
    ensures
        scan(rest, data) == (Seq::<Seq<u8>>::empty(), rest + data),
    decreases data.len(),
{
    if data.len() == 0 {
        assert(rest + data =~= rest);
    } else {
        assert(no_newline(data.drop_last()));
        assert(data[data.len() - 1] != NEWLINE);
        lemma_scan_without_newline(rest, data.drop_last());
        assert((rest + data.drop_last()).push(data.last()) =~= rest + data);
    }
}

proof fn lemma_archive_concat(rest: Seq<u8>, xs: Seq<Seq<u8>>, ys: Seq<Seq<u8>>)
    ensures
        archive_run(rest, xs + ys) == (
            archive_run(rest, xs).0 + archive_run(archive_run(rest, xs).1, ys).0,
            archive_run(archive_run(rest, xs).1, ys).1,
        ),
    decreases ys.len(),
{
    let sx = archive_run(rest, xs);
    if ys.len() == 0 {
        assert(xs + ys =~= xs);
        assert(sx.0 + seq![] =~= sx.0);
    } else {
        assert((xs + ys).drop_last() =~= xs + ys.drop_last());
        assert((xs + ys).last() == ys.last());
        lemma_archive_concat(rest, xs, ys.drop_last());
        let prev = archive_run(sx.1, ys.drop_last());
        let step = archive_step(prev.1, ys.last());
        assert(sx.0 + prev.0 + step.0 =~= sx.0 + (prev.0 + step.0));
    }
}

/// Splitting a plain stream on newlines and writing each line back followed by a newline
/// gives the stream again, with one newline added where the stream's last line had none;
/// no line holds a newline.
pub proof fn plain_round_trip(data: Seq<u8>)
    ensures
        join_lines(plain_lines(data)) == (if data.len() == 0 || data.last() == NEWLINE {
            data
        } else {
            data.push(NEWLINE)
        }),
        forall|i: int| 0 <= i < plain_lines(data).len() ==> no_newline(#[trigger] plain_lines(data)[i]),
{
    let s = scan(seq![], data);
    lemma_scan_join(seq![], data);
    lemma_scan_keeps_lines_clean(seq![], data);
    assert(seq![] + data =~= data);
    if data.len() > 0 && data.last() != NEWLINE {
        assert(s.1.len() > 0);
        assert(s.0 + seq![s.1] =~= s.0.push(s.1));
        assert(s.0.push(s.1).drop_last() =~= s.0);
        assert(join_lines(s.0) + s.1.push(NEWLINE) =~= (join_lines(s.0) + s.1).push(NEWLINE));
        assert forall|i: int| 0 <= i < plain_lines(data).len() implies no_newline(
            #[trigger] plain_lines(data)[i],
        ) by {
            if i < s.0.len() {
                assert(plain_lines(data)[i] == s.0[i]);
            }
        }
    } else {
        if data.len() > 0 {
            assert(s.1 == Seq::<u8>::empty());
        }
        assert(s.0 + seq![] =~= s.0);
        assert(join_lines(s.0) + seq![] =~= join_lines(s.0));
    }
}

/// A metadata block in an archive stream contributes no line of its own and closes the
/// pending line: the lines of the whole stream are those of the part before it followed by
/// those of the part after it.
pub proof fn metadata_block_separates(pre: Seq<Seq<u8>>, meta: Seq<u8>, post: Seq<Seq<u8>>)
    requires
        is_metadata(meta),
    ensures
        archive_step(Seq::<u8>::empty(), meta).0.len() == 0,
        archive_lines(pre + seq![meta] + post) == archive_lines(pre) + archive_lines(post),
{
    let e = Seq::<u8>::empty();
    let none = Seq::<Seq<u8>>::empty();
    let a = archive_run(e, pre);
    lemma_archive_concat(e, pre + seq![meta], post);
    lemma_archive_concat(e, pre, seq![meta]);
    assert(seq![meta].drop_last() =~= none);
    assert(seq![meta].last() == meta);
    assert(archive_run(a.1, none) == (none, a.1));
    assert(archive_step(a.1, meta) == (flushed(a.1), e));
    assert(archive_run(a.1, seq![meta]) == (none + flushed(a.1), e));
    assert(none + flushed(a.1) =~= flushed(a.1));
    assert(flushed(e) =~= none);
    assert(archive_step(e, meta).0 == none);
    let b = archive_run(e, post);
    assert(archive_run(e, pre + seq![meta]) == (a.0 + flushed(a.1), e));
    assert(a.0 + flushed(a.1) + b.0 + flushed(b.1) =~= (a.0 + flushed(a.1)) + (b.0 + flushed(b.1)));
}

/// A line whose bytes fall in two consecutive payload blocks comes out as if the two
/// blocks were one piece of the stream.
pub proof fn line_across_payload_blocks(rest: Seq<u8>, x: Seq<u8>, y: Seq<u8>)
    requires
        !is_metadata(x),
        !is_metadata(y),
    ensures
        archive_run(rest, seq![x, y]) == scan(rest, x + y),
{
    let none = Seq::<Seq<u8>>::empty();
    assert(seq![x, y].drop_last() =~= seq![x]);
    assert(seq![x, y].last() == y);
    assert(seq![x].drop_last() =~= none);
    assert(seq![x].last() == x);
    lemma_scan_concat(rest, x, y);
    let sx = scan(rest, x);
    let sy = scan(sx.1, y);
    assert(archive_run(rest, none) == (none, rest));
    assert(archive_step(rest, x) == sx);
    assert(archive_run(rest, seq![x]) == (none + sx.0, sx.1));
    assert(none + sx.0 =~= sx.0);
    assert(archive_step(sx.1, y) == sy);
    assert(archive_run(rest, seq![x, y]) == (sx.0 + sy.0, sy.1));
}

/// Bytes after the last newline of a stream come out as its final line.
pub proof fn unterminated_tail_is_last_line(data: Seq<u8>, tail: Seq<u8>)
    requires
        data.len() == 0 || data.last() == NEWLINE,
        tail.len() > 0,
        no_newline(tail),
    ensures
        plain_lines(data + tail) == plain_lines(data).push(tail),
{
    let e = Seq::<u8>::empty();
    lemma_scan_concat(e, data, tail);
    let s = scan(e, data);
    if data.len() > 0 {
        assert(s.1 == e);
    }
    lemma_scan_without_newline(s.1, tail);
    assert(e + tail =~= tail);
    assert(s.0 + seq![] =~= s.0);
    assert(s.0 + Seq::<Seq<u8>>::empty() + seq![tail] =~= s.0.push(tail));
}

/// In an archive stream that ends in a payload block with no newline, the bytes pending
/// before that block and the block's bytes come out as one final line.
pub proof fn unterminated_archive_tail_is_last_line(blocks: Seq<Seq<u8>>, tail: Seq<u8>)
    requires
        !is_metadata(tail),
        tail.len() > 0,
        no_newline(tail),
    ensures
        archive_lines(blocks.push(tail)) == archive_run(Seq::<u8>::empty(), blocks).0.push(
            archive_run(Seq::<u8>::empty(), blocks).1 + tail,
        ),
{
    let e = Seq::<u8>::empty();
    let prev = archive_run(e, blocks);
    assert(blocks.push(tail).drop_last() =~= blocks);
    assert(blocks.push(tail).last() == tail);
    lemma_scan_without_newline(prev.1, tail);
    assert(archive_step(prev.1, tail) == (Seq::<Seq<u8>>::empty(), prev.1 + tail));
    assert(archive_run(e, blocks.push(tail)) == (prev.0 + Seq::<Seq<u8>>::empty(), prev.1 + tail));
    assert((prev.1 + tail).len() > 0);
    assert(prev.0 + Seq::<Seq<u8>>::empty() + seq![prev.1 + tail] =~= prev.0.push(prev.1 + tail));
}

/// An archive stream that is a single metadata block yields no line.
pub proof fn lone_metadata_block(meta: Seq<u8>)
    requires
        is_metadata(meta),
    ensures
        archive_lines(seq![meta]) == Seq::<Seq<u8>>::empty(),
{
    let e = Seq::<u8>::empty();
    let none = Seq::<Seq<u8>>::empty();
    assert(seq![meta].drop_last() =~= none);
    assert(archive_run(e, none) == (none, e));
    assert(flushed(e) =~= none);
    assert(archive_step(e, meta) == (none, e));
    assert(archive_run(e, seq![meta]).0 =~= none + none);
    assert(archive_run(e, seq![meta]).1 == e);
    assert(archive_lines(seq![meta]) =~= none + none + flushed(e));
}

/// After a newline nothing of the lines before it carries over, whatever became of them:
/// the rest of the stream is split as if it started there.
pub proof fn line_break_resets(rest: Seq<u8>, x: Seq<u8>, y: Seq<u8>)
    requires
        x.len() > 0,
        x.last() == NEWLINE,
    ensures
        scan(rest, x).1 == Seq::<u8>::empty(),
        scan(rest, x + y) == (
            scan(rest, x).0 + scan(Seq::<u8>::empty(), y).0,
            scan(Seq::<u8>::empty(), y).1,
        ),
{
    lemma_scan_concat(rest, x, y);
}

} // verus!
