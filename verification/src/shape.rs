//! Shaping of the raw WHOIS reply: split the received text into lines,
//! drop the first line (the service's column header), and rejoin the rest
//! with newline separators.
//!
//! The model works on the reply's bytes and mirrors line iteration over
//! text: a line break is a `\n` byte, a line that a break closed loses a
//! trailing `\r` (a CRLF break), a final line without a closing break
//! still counts — and keeps its bytes, `\r` included — while a trailing
//! break opens no empty last line.

use vstd::prelude::*;

verus! {

/// The line-feed byte that terminates a line.
pub const NL: u8 = 10;

/// The carriage-return byte that may precede a line feed.
pub const CR: u8 = 13;

/// The pieces of `s` cut at each `NL`, the terminator kept out of the
/// pieces; a trailing terminator opens no empty final piece.
pub open spec fn split_lines_raw(s: Seq<u8>) -> Seq<Seq<u8>>
    decreases s.len(),
{
    if s.len() == 0 {
        Seq::empty()
    } else if s[0] == NL {
        seq![Seq::empty()] + split_lines_raw(s.drop_first())
    } else {
        let rest = split_lines_raw(s.drop_first());
        if rest.len() == 0 {
            seq![seq![s[0]]]
        } else {
            seq![seq![s[0]] + rest[0]] + rest.drop_first()
        }
    }
}

/// A line without its trailing carriage return, if it has one.
pub open spec fn strip_cr(l: Seq<u8>) -> Seq<u8> {
    if l.len() > 0 && l.last() == CR {
        l.drop_last()
    } else {
        l
    }
}

/// Whether the reply ends with a line terminator (or holds nothing).
pub open spec fn ends_terminated(s: Seq<u8>) -> bool {
    s.len() == 0 || s.last() == NL
}

/// The lines of a reply: the pieces cut at each `NL`. A piece that a
/// terminator closed loses a trailing `\r` (a CRLF break); a final piece
/// that no terminator closed keeps its bytes as they came.
pub open spec fn response_lines(s: Seq<u8>) -> Seq<Seq<u8>> {
    Seq::new(
        split_lines_raw(s).len(),
        |k: int|
            if ends_terminated(s) || k < split_lines_raw(s).len() - 1 {
                strip_cr(split_lines_raw(s)[k])
            } else {
                split_lines_raw(s)[k]
            },
    )
}

/// How many lines a reply has.
pub open spec fn line_count(s: Seq<u8>) -> nat {
    response_lines(s).len()
}

/// Lines rejoined with a single `NL` between them and no trailing one.
pub open spec fn join_lines(ls: Seq<Seq<u8>>) -> Seq<u8>
    decreases ls.len(),
{
    if ls.len() == 0 {
        Seq::empty()
    } else if ls.len() == 1 {
        ls[0]
    } else {
        ls[0] + seq![NL] + join_lines(ls.drop_first())
    }
}

/// The shaped reply: every line but the first, rejoined with `NL`.
pub open spec fn shaped_response(s: Seq<u8>) -> Seq<u8> {
    if response_lines(s).len() == 0 {
        Seq::empty()
    } else {
        join_lines(response_lines(s).skip(1))
    }
}

/// A nonempty input always yields at least one line.
proof fn lemma_split_nonempty(s: Seq<u8>)
    requires
        s.len() > 0,
    ensures
        split_lines_raw(s).len() > 0,
{
}

/// Splitting distributes over concatenation when the left part ends with
/// a line terminator.
proof fn lemma_split_append(a: Seq<u8>, b: Seq<u8>)
    requires
        a.len() > 0,
        a.last() == NL,
    ensures
        split_lines_raw(a + b) == split_lines_raw(a) + split_lines_raw(b),
    decreases a.len(),
{
    let ab = a + b;
    assert(ab.len() > 0);
    if a.len() == 1 {
        assert(a[0] == NL);
        assert(ab[0] == NL);
        assert(ab.drop_first() =~= b);
        assert(a.drop_first() =~= Seq::<u8>::empty());
        assert(split_lines_raw(Seq::<u8>::empty()) == Seq::<Seq<u8>>::empty());
        assert(split_lines_raw(a) =~= seq![Seq::<u8>::empty()]);
        assert(split_lines_raw(ab) =~= seq![Seq::<u8>::empty()] + split_lines_raw(b));
        assert(split_lines_raw(a + b) =~~= split_lines_raw(a) + split_lines_raw(b));
    } else {
        let a1 = a.drop_first();
        assert(a1.len() > 0 && a1.last() == NL);
        lemma_split_append(a1, b);
        assert(ab.drop_first() =~= a1 + b);
        if a[0] == NL {
            assert(ab[0] == NL);
            assert(split_lines_raw(ab) == seq![Seq::<u8>::empty()] + split_lines_raw(a1 + b));
            assert(split_lines_raw(a) == seq![Seq::<u8>::empty()] + split_lines_raw(a1));
            assert(split_lines_raw(a + b) =~~= split_lines_raw(a) + split_lines_raw(b));
        } else {
            lemma_split_nonempty(a1);
            let ra = split_lines_raw(a1);
            let rab = split_lines_raw(a1 + b);
            assert(rab == ra + split_lines_raw(b));
            assert(ra.len() > 0);
            assert(rab.len() > 0);
            assert(rab[0] == ra[0]);
            assert(rab.drop_first() =~= ra.drop_first() + split_lines_raw(b));
            assert(split_lines_raw(ab) == seq![seq![ab[0]] + rab[0]] + rab.drop_first());
            assert(split_lines_raw(a) == seq![seq![a[0]] + ra[0]] + ra.drop_first());
            assert(ab[0] == a[0]);
            assert(split_lines_raw(a + b) =~~= split_lines_raw(a) + split_lines_raw(b));
        }
    }
}

/// A piece with no terminator in it splits into just itself.
proof fn lemma_split_whole(l: Seq<u8>)
    requires
        l.len() > 0,
        forall|i: int| 0 <= i < l.len() ==> l[i] != NL,
    ensures
        split_lines_raw(l) == seq![l],
    decreases l.len(),
{
    if l.len() == 1 {
        assert(l.drop_first() =~= Seq::<u8>::empty());
        assert(split_lines_raw(Seq::<u8>::empty()) == Seq::<Seq<u8>>::empty());
        assert(split_lines_raw(l) == seq![seq![l[0]]]);
        assert(seq![l[0]] =~= l);
        assert(split_lines_raw(l) =~~= seq![l]);
    } else {
        let l1 = l.drop_first();
        assert(forall|i: int| 0 <= i < l1.len() ==> l1[i] != NL);
        lemma_split_whole(l1);
        assert(split_lines_raw(l1) == seq![l1]);
        assert(split_lines_raw(l1).len() == 1);
        assert(split_lines_raw(l) == seq![seq![l[0]] + l1] + split_lines_raw(l1).drop_first());
        assert(split_lines_raw(l1).drop_first() =~= Seq::<Seq<u8>>::empty());
        assert(seq![l[0]] + l1 =~= l);
        assert(split_lines_raw(l) =~~= seq![l]);
    }
}

/// A terminated piece with no terminator inside splits into the piece alone.
proof fn lemma_split_terminated(l: Seq<u8>)
    requires
        forall|i: int| 0 <= i < l.len() ==> l[i] != NL,
    ensures
        split_lines_raw(l + seq![NL]) == seq![l],
    decreases l.len(),
{
    let t = l + seq![NL];
    if l.len() == 0 {
        assert(t[0] == NL);
        assert(t.drop_first() =~= Seq::<u8>::empty());
        assert(split_lines_raw(Seq::<u8>::empty()) == Seq::<Seq<u8>>::empty());
        assert(split_lines_raw(t) =~= seq![Seq::<u8>::empty()]);
        assert(Seq::<u8>::empty() =~= l);
        assert(split_lines_raw(t) =~~= seq![l]);
    } else {
        let l1 = l.drop_first();
        assert(forall|i: int| 0 <= i < l1.len() ==> l1[i] != NL);
        lemma_split_terminated(l1);
        assert(t[0] == l[0]);
        assert(t[0] != NL);
        assert(t.drop_first() =~= l1 + seq![NL]);
        assert(split_lines_raw(t.drop_first()) == seq![l1]);
        assert(seq![t[0]] + l1 =~= l);
        assert(split_lines_raw(t) =~~= seq![l]);
    }
}

/// No piece of a split contains a terminator.
proof fn lemma_split_pieces_free(s: Seq<u8>)
    ensures
        forall|k: int, i: int|
            0 <= k < split_lines_raw(s).len() && 0 <= i < split_lines_raw(s)[k].len()
                ==> split_lines_raw(s)[k][i] != NL,
    decreases s.len(),
{
    if s.len() == 0 {
    } else {
        lemma_split_pieces_free(s.drop_first());
        let rest = split_lines_raw(s.drop_first());
        if s[0] == NL {
        } else {
            if rest.len() == 0 {
            } else {
                assert forall|k: int, i: int|
                    0 <= k < split_lines_raw(s).len() && 0 <= i < split_lines_raw(s)[k].len()
                        implies split_lines_raw(s)[k][i] != NL by {
                    if k == 0 {
                        if i == 0 {
                        } else {
                            assert(split_lines_raw(s)[0][i] == rest[0][i - 1]);
                        }
                    } else {
                        assert(split_lines_raw(s)[k] == rest[k]);
                    }
                }
            }
        }
    }
}

/// A terminated line after a terminated prefix: its stripped piece joins
/// the prefix's lines.
proof fn lemma_lines_extend_terminated(pre: Seq<u8>, cur: Seq<u8>)
    requires
        ends_terminated(pre),
        forall|i: int| 0 <= i < cur.len() ==> cur[i] != NL,
    ensures
        response_lines(pre + cur + seq![NL]) == response_lines(pre).push(strip_cr(cur)),
{
    let t = pre + cur + seq![NL];
    lemma_split_terminated(cur);
    if pre.len() == 0 {
        assert(pre =~= Seq::<u8>::empty());
        assert(t =~= cur + seq![NL]);
        assert(split_lines_raw(Seq::<u8>::empty()) == Seq::<Seq<u8>>::empty());
        assert(split_lines_raw(t) == seq![cur]);
        assert(split_lines_raw(t) =~= split_lines_raw(pre) + seq![cur]);
    } else {
        assert(pre.last() == NL);
        lemma_split_append(pre, cur + seq![NL]);
        assert(t =~= pre + (cur + seq![NL]));
        assert(split_lines_raw(t) =~= split_lines_raw(pre) + seq![cur]);
    }
    assert(t[t.len() - 1] == NL);
    assert(ends_terminated(t));
    assert forall|k: int| 0 <= k < split_lines_raw(t).len() implies response_lines(t)[k]
        == response_lines(pre).push(strip_cr(cur))[k] by {
        if k < split_lines_raw(pre).len() {
            assert(split_lines_raw(t)[k] == split_lines_raw(pre)[k]);
            assert(response_lines(pre)[k] == strip_cr(split_lines_raw(pre)[k]));
        } else {
            assert(split_lines_raw(t)[k] == cur);
        }
    }
    assert(response_lines(t) =~= response_lines(pre).push(strip_cr(cur)));
}

/// A final line that no terminator closed joins the prefix's lines with
/// its bytes unchanged.
proof fn lemma_lines_extend_unterminated(pre: Seq<u8>, cur: Seq<u8>)
    requires
        ends_terminated(pre),
        cur.len() > 0,
        forall|i: int| 0 <= i < cur.len() ==> cur[i] != NL,
    ensures
        response_lines(pre + cur) == response_lines(pre).push(cur),
{
    let t = pre + cur;
    lemma_split_whole(cur);
    if pre.len() == 0 {
        assert(pre =~= Seq::<u8>::empty());
        assert(t =~= cur);
        assert(split_lines_raw(Seq::<u8>::empty()) == Seq::<Seq<u8>>::empty());
        assert(split_lines_raw(t) =~= split_lines_raw(pre) + seq![cur]);
    } else {
        lemma_split_append(pre, cur);
        assert(split_lines_raw(t) =~= split_lines_raw(pre) + seq![cur]);
    }
    assert(t[t.len() - 1] == cur.last());
    assert(cur.last() != NL);
    assert(!ends_terminated(t));
    assert forall|k: int| 0 <= k < split_lines_raw(t).len() implies response_lines(t)[k]
        == response_lines(pre).push(cur)[k] by {
        if k < split_lines_raw(pre).len() {
            assert(split_lines_raw(t)[k] == split_lines_raw(pre)[k]);
            assert(response_lines(pre)[k] == strip_cr(split_lines_raw(pre)[k]));
            assert(k < split_lines_raw(t).len() - 1);
        } else {
            assert(split_lines_raw(t)[k] == cur);
            assert(k == split_lines_raw(t).len() - 1);
        }
    }
    assert(response_lines(t) =~= response_lines(pre).push(cur));
}

/// A rejoin of pieces ends where its last piece ends.
proof fn lemma_join_last(ls: Seq<Seq<u8>>)
    requires
        ls.len() > 0,
        ls.last().len() > 0,
    ensures
        join_lines(ls).len() > 0,
        join_lines(ls).last() == ls.last().last(),
    decreases ls.len(),
{
    if ls.len() == 1 {
    } else {
        let rest = ls.drop_first();
        lemma_join_last(rest);
        assert(rest.last() == ls.last());
        assert(join_lines(ls) == ls[0] + seq![NL] + join_lines(rest));
        assert(join_lines(ls).last() == join_lines(rest).last());
    }
}

/// Rejoining pieces that hold no terminator, the last of them nonempty,
/// splits back into exactly those pieces.
proof fn lemma_split_join(ls: Seq<Seq<u8>>)
    requires
        ls.len() > 0,
        ls.last().len() > 0,
        forall|k: int, i: int| 0 <= k < ls.len() && 0 <= i < ls[k].len() ==> ls[k][i] != NL,
    ensures
        split_lines_raw(join_lines(ls)) == ls,
    decreases ls.len(),
{
    if ls.len() == 1 {
        lemma_split_whole(ls[0]);
        assert(split_lines_raw(join_lines(ls)) =~~= ls);
    } else {
        let rest = ls.drop_first();
        assert(rest.last() == ls.last());
        assert(forall|k: int, i: int|
            0 <= k < rest.len() && 0 <= i < rest[k].len() ==> rest[k][i] != NL);
        lemma_split_join(rest);
        lemma_split_terminated(ls[0]);
        lemma_split_append(ls[0] + seq![NL], join_lines(rest));
        assert(join_lines(ls) =~= (ls[0] + seq![NL]) + join_lines(rest));
        assert(split_lines_raw(join_lines(ls)) =~~= ls);
    }
}

/// The header-stripping law: a reply of `n` lines, `n` at least one and its
/// last line nonempty if there is more than one, shapes to a result of
/// exactly `n - 1` lines; a reply of a single line shapes to the empty
/// result.
pub proof fn lemma_header_strip(raw: Seq<u8>)
    requires
        line_count(raw) >= 1,
        line_count(raw) > 1 ==> response_lines(raw).last().len() > 0,
    ensures
        line_count(raw) == 1 ==> shaped_response(raw) == Seq::<u8>::empty(),
        line_count(shaped_response(raw)) == line_count(raw) - 1,
{
    let lines = response_lines(raw);
    let rest = lines.skip(1);
    if lines.len() == 1 {
        assert(rest.len() == 0);
        assert(shaped_response(raw) == join_lines(rest));
        assert(join_lines(rest) == Seq::<u8>::empty());
        assert(split_lines_raw(Seq::<u8>::empty()) == Seq::<Seq<u8>>::empty());
        assert(line_count(Seq::<u8>::empty()) == 0);
    } else {
        lemma_split_pieces_free(raw);
        assert forall|k: int, i: int|
            0 <= k < rest.len() && 0 <= i < rest[k].len() implies rest[k][i] != NL by {
            let piece = split_lines_raw(raw)[k + 1];
            assert(rest[k] == lines[k + 1]);
            if ends_terminated(raw) || k + 1 < split_lines_raw(raw).len() - 1 {
                assert(lines[k + 1] == strip_cr(piece));
                assert(rest[k][i] == piece[i]);
            } else {
                assert(lines[k + 1] == piece);
            }
        }
        assert(rest.last() == lines.last());
        assert(rest.last().len() > 0);
        lemma_split_join(rest);
        assert(split_lines_raw(shaped_response(raw)) == rest);
        assert(line_count(shaped_response(raw)) == rest.len());
    }
}

/// The content of the shaped reply: when every data line of the raw reply
/// is nonempty and no data line before the last ends in a stray carriage
/// return, the shaped result's lines are exactly the raw reply's lines
/// with the first — the header — dropped.
pub proof fn lemma_shaped_data_lines(raw: Seq<u8>)
    requires
        line_count(raw) >= 1,
        forall|k: int|
            1 <= k < line_count(raw) ==> (#[trigger] response_lines(raw)[k]).len() > 0,
        forall|k: int|
            1 <= k < line_count(raw) - 1 ==> (#[trigger] response_lines(raw)[k]).last() != CR,
    ensures
        response_lines(shaped_response(raw)) == response_lines(raw).skip(1),
{
    let lines = response_lines(raw);
    let rest = lines.skip(1);
    if lines.len() == 1 {
        assert(rest =~= Seq::<Seq<u8>>::empty());
        assert(shaped_response(raw) == join_lines(rest));
        assert(join_lines(rest) == Seq::<u8>::empty());
        assert(split_lines_raw(Seq::<u8>::empty()) == Seq::<Seq<u8>>::empty());
        assert(response_lines(shaped_response(raw)) =~= rest);
    } else {
        lemma_split_pieces_free(raw);
        assert forall|k: int, i: int|
            0 <= k < rest.len() && 0 <= i < rest[k].len() implies rest[k][i] != NL by {
            let piece = split_lines_raw(raw)[k + 1];
            assert(rest[k] == lines[k + 1]);
            if ends_terminated(raw) || k + 1 < split_lines_raw(raw).len() - 1 {
                assert(lines[k + 1] == strip_cr(piece));
                assert(rest[k][i] == piece[i]);
            } else {
                assert(lines[k + 1] == piece);
            }
        }
        assert(rest.last() == lines[lines.len() - 1]);
        assert(rest.last().len() > 0);
        lemma_split_join(rest);
        let shaped = shaped_response(raw);
        assert(split_lines_raw(shaped) == rest);
        lemma_join_last(rest);
        assert(shaped.last() == rest.last().last());
        assert(!ends_terminated(shaped));
        assert forall|k: int| 0 <= k < rest.len() implies response_lines(shaped)[k]
            == rest[k] by {
            if k < rest.len() - 1 {
                assert(response_lines(shaped)[k] == strip_cr(rest[k]));
                assert(rest[k] == lines[k + 1]);
                assert(rest[k].len() > 0);
                assert(rest[k].last() != CR);
            } else {
                assert(response_lines(shaped)[k] == rest[k]);
            }
        }
        assert(response_lines(shaped) =~= rest);
    }
}

/// Shaping in shape is consistent across calls: two replies with the same
/// line count, each ending in a nonempty line when it has data lines,
/// shape to results with the same line count — whatever the lines hold.
pub proof fn lemma_shape_consistent(raw1: Seq<u8>, raw2: Seq<u8>)
    requires
        line_count(raw1) >= 1,
        line_count(raw2) >= 1,
        line_count(raw1) == line_count(raw2),
        line_count(raw1) > 1 ==> response_lines(raw1).last().len() > 0,
        line_count(raw2) > 1 ==> response_lines(raw2).last().len() > 0,
    ensures
        line_count(shaped_response(raw1)) == line_count(shaped_response(raw2)),
{
    lemma_header_strip(raw1);
    lemma_header_strip(raw2);
}

fn strip_cr_exec(line: &mut Vec<u8>)
    ensures
        final(line)@ == strip_cr(old(line)@),
{
    if line.len() > 0 {
        let last = line[line.len() - 1];
        if last == CR {
            line.pop();
            proof {
                assert(line@ =~= strip_cr(old(line)@));
            }
        }
    }
}

/// The contents of a vector of lines, line by line.
pub open spec fn views_of(ls: Seq<Vec<u8>>) -> Seq<Seq<u8>> {
    ls.map_values(|l: Vec<u8>| l@)
}

proof fn lemma_views_push(ls: Seq<Vec<u8>>, v: Vec<u8>)
    ensures
        views_of(ls.push(v)) == views_of(ls).push(v@),
{
    assert forall|k: int| 0 <= k < ls.len() + 1 implies views_of(ls.push(v))[k] == views_of(
        ls,
    ).push(v@)[k] by {
        if k < ls.len() {
            assert(ls.push(v)[k] == ls[k]);
        } else {
            assert(ls.push(v)[k] == v);
        }
    }
    assert(views_of(ls.push(v)) =~= views_of(ls).push(v@));
}

/// The lines of a raw reply, split at each `NL`, a terminated line
/// without its trailing `\r`, an unterminated final line as it came.
fn split_response_lines(raw: &[u8]) -> (lines: Vec<Vec<u8>>)
    ensures
        views_of(lines@) == response_lines(raw@),
{
    let mut lines: Vec<Vec<u8>> = Vec::new();
    let mut cur: Vec<u8> = Vec::new();
    let ghost mut b: int = 0;
    let mut i: usize = 0;
    proof {
        assert(raw@.subrange(0, 0) =~= Seq::<u8>::empty());
        assert(split_lines_raw(Seq::<u8>::empty()) == Seq::<Seq<u8>>::empty());
        assert(views_of(lines@) =~= response_lines(raw@.subrange(0, 0)));
    }
    while i < raw.len()
        invariant
            0 <= b <= i <= raw@.len(),
            cur@ == raw@.subrange(b, i as int),
            forall|j: int| b <= j < i ==> raw@[j] != NL,
            b == 0 || raw@[b - 1] == NL,
            views_of(lines@) == response_lines(raw@.subrange(0, b)),
        decreases raw@.len() - i,
    {
        let byte = raw[i];
        if byte == NL {
            proof {
                let pre = raw@.subrange(0, b);
                let cur0 = cur@;
                lemma_lines_extend_terminated(pre, cur0);
                assert(raw@.subrange(0, i + 1) =~= pre + cur0 + seq![NL]);
            }
            let ghost lines0 = lines@;
            let ghost cur0 = cur@;
            strip_cr_exec(&mut cur);
            let done = cur;
            cur = Vec::new();
            lines.push(done);
            proof {
                b = i + 1;
                assert(lines@ == lines0.push(done));
                assert(done@ == strip_cr(cur0));
                lemma_views_push(lines0, done);
                assert(views_of(lines@) =~= response_lines(raw@.subrange(0, b)));
                assert(cur@ =~= raw@.subrange(b, i + 1));
            }
        } else {
            cur.push(byte);
            proof {
                assert(cur@ =~= raw@.subrange(b, i + 1));
            }
        }
        i += 1;
    }
    if cur.len() > 0 {
        proof {
            let pre = raw@.subrange(0, b);
            lemma_lines_extend_unterminated(pre, cur@);
            assert(raw@ =~= pre + cur@);
        }
        let ghost lines0 = lines@;
        let ghost cur0 = cur@;
        let done = cur;
        lines.push(done);
        proof {
            assert(lines@ == lines0.push(done));
            assert(done@ == cur0);
            lemma_views_push(lines0, done);
            assert(views_of(lines@) =~= response_lines(raw@));
        }
    } else {
        proof {
            assert(raw@ =~= raw@.subrange(0, b));
        }
    }
    lines
}

/// Appending one more line to a rejoin adds a separator first, unless
/// nothing was joined yet.
proof fn lemma_join_push(ls: Seq<Seq<u8>>, x: Seq<u8>)
    ensures
        ls.len() == 0 ==> join_lines(ls.push(x)) == x,
        ls.len() > 0 ==> join_lines(ls.push(x)) == join_lines(ls) + seq![NL] + x,
    decreases ls.len(),
{
    if ls.len() == 0 {
        assert(ls.push(x).len() == 1);
        assert(join_lines(ls.push(x)) == ls.push(x)[0]);
    } else if ls.len() == 1 {
        let p = ls.push(x);
        assert(p.len() == 2);
        assert(p.drop_first() =~= seq![x]);
        assert(join_lines(p) == p[0] + seq![NL] + join_lines(p.drop_first()));
        assert(join_lines(p) == ls[0] + seq![NL] + x);
        assert(join_lines(ls) == ls[0]);
    } else {
        lemma_join_push(ls.drop_first(), x);
        let p = ls.push(x);
        assert(p.drop_first() =~= ls.drop_first().push(x));
        assert(join_lines(p) == p[0] + seq![NL] + join_lines(ls.drop_first().push(x)));
        assert(join_lines(ls.push(x)) =~= join_lines(ls) + seq![NL] + x);
    }
}

/// Every line but the first, rejoined with a single `NL` between them.
fn join_tail(lines: &Vec<Vec<u8>>) -> (out: Vec<u8>)
    ensures
        lines@.len() == 0 ==> out@ == Seq::<u8>::empty(),
        lines@.len() > 0 ==> out@ == join_lines(views_of(lines@).skip(1)),
{
    let ghost dv = views_of(lines@);
    let mut out: Vec<u8> = Vec::new();
    if lines.len() == 0 {
        return out;
    }
    let mut j: usize = 1;
    proof {
        assert(dv.subrange(1, 1) =~= Seq::<Seq<u8>>::empty());
    }
    while j < lines.len()
        invariant
            1 <= j <= lines@.len(),
            dv == views_of(lines@),
            dv.len() == lines@.len(),
            out@ == join_lines(dv.subrange(1, j as int)),
        decreases lines@.len() - j,
    {
        proof {
            lemma_join_push(dv.subrange(1, j as int), dv[j as int]);
            assert(dv.subrange(1, j + 1) =~= dv.subrange(1, j as int).push(dv[j as int]));
        }
        if j > 1 {
            out.push(NL);
        }
        let mut k: usize = 0;
        let line = &lines[j];
        proof {
            assert(j < lines@.len());
            assert(*line == lines@[j as int]);
            assert(dv[j as int] == lines@[j as int]@);
            assert(line@ == dv[j as int]);
            assert(line@.subrange(0, 0) =~= Seq::<u8>::empty());
            if j > 1 {
                assert(out@ =~= join_lines(dv.subrange(1, j as int)) + seq![NL] + line@.subrange(
                    0,
                    0,
                ));
            } else {
                assert(dv.subrange(1, 1) =~= Seq::<Seq<u8>>::empty());
                assert(join_lines(Seq::<Seq<u8>>::empty()) == Seq::<u8>::empty());
                assert(out@ =~= line@.subrange(0, 0));
            }
        }
        while k < line.len()
            invariant
                0 <= k <= line@.len(),
                1 <= j,
                j < dv.len(),
                line@ == dv[j as int],
                j > 1 ==> out@ == join_lines(dv.subrange(1, j as int)) + seq![NL]
                    + line@.subrange(0, k as int),
                j == 1 ==> out@ == line@.subrange(0, k as int),
            decreases line@.len() - k,
        {
            out.push(line[k]);
            proof {
                assert(line@.subrange(0, k + 1) =~= line@.subrange(0, k as int).push(
                    line@[k as int],
                ));
            }
            k += 1;
        }
        proof {
            assert(line@.subrange(0, line@.len() as int) =~= line@);
            if j == 1 {
                assert(out@ =~= join_lines(dv.subrange(1, j + 1)));
            } else {
                assert(out@ =~= join_lines(dv.subrange(1, j + 1)));
            }
        }
        j += 1;
    }
    proof {
        assert(dv.subrange(1, dv.len() as int) =~= dv.skip(1));
    }
    out
}

/// The shaped reply: the raw bytes split into lines, the first line (the
/// column header) dropped, and the rest rejoined with `\n`. A reply of a
/// single line — or an empty one — shapes to an empty result, which the
/// caller reads as "no data".
pub fn shape_response(raw: &[u8]) -> (out: Vec<u8>)
    ensures
        out@ == shaped_response(raw@),
{
    let lines = split_response_lines(raw);
    let out = join_tail(&lines);
    proof {
        let dv = views_of(lines@);
        if dv.len() == 0 {
            assert(out@ =~= shaped_response(raw@));
        } else {
            assert(out@ =~= shaped_response(raw@));
        }
    }
    out
}

} // verus!
