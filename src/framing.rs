use vstd::prelude::*;

verus! {

/// The bytes of `s` cut at each newline; the pieces hold no newline. There
/// is always at least one piece.
pub open spec fn lines_of(s: Seq<u8>) -> Seq<Seq<u8>>
    decreases s.len(),
{
    if s.len() == 0 {
        seq![Seq::empty()]
    } else {
        let prev = lines_of(s.drop_last());
        if s.last() == 10u8 {
            prev.push(Seq::empty())
        } else {
            prev.update(prev.len() - 1, prev.last().push(s.last()))
        }
    }
}

/// ASCII whitespace: space, tab, line feed, form feed, carriage return.
pub open spec fn is_space(b: u8) -> bool {
    b == 32u8 || b == 9u8 || b == 10u8 || b == 12u8 || b == 13u8
}

/// A line that holds nothing but whitespace.
pub open spec fn is_blank(line: Seq<u8>) -> bool {
    forall|i: int| 0 <= i < line.len() ==> is_space(line[i])
}

/// Keeps lines that are not blank.
pub open spec fn not_blank() -> spec_fn(Seq<u8>) -> bool {
    |l: Seq<u8>| !is_blank(l)
}

/// The lines of a newline-delimited body that hold something.
pub open spec fn export_lines_spec(body: Seq<u8>) -> Seq<Seq<u8>> {
    lines_of(body).filter(not_blank())
}

/// The values of a sequence of byte vectors.
pub open spec fn bytes_view(v: Seq<Vec<u8>>) -> Seq<Seq<u8>> {
    v.map_values(|b: Vec<u8>| b@)
}

fn blank(line: &Vec<u8>) -> (r: bool)
    ensures
        r == is_blank(line@),
{
    let mut i: usize = 0;
    while i < line.len()
        invariant
            i <= line@.len(),
            forall|k: int| 0 <= k < i ==> is_space(line@[k]),
        decreases line@.len() - i,
    {
        let b = line[i];
        if !(b == 32u8 || b == 9u8 || b == 10u8 || b == 12u8 || b == 13u8) {
            return false;
        }
        i += 1;
    }
    true
}

/// Cuts an export response body into its lines, dropping blank ones; each
/// line left is one JSON-encoded op, in upstream order.
pub fn export_lines(body: &[u8]) -> (r: Vec<Vec<u8>>)
    ensures
        bytes_view(r@) == export_lines_spec(body@),
{
    let mut out: Vec<Vec<u8>> = Vec::new();
    let mut cur: Vec<u8> = Vec::new();
    let ghost mut done: Seq<Seq<u8>> = Seq::empty();
    let mut i: usize = 0;
    proof {
        assert(body@.take(0) =~= Seq::<u8>::empty());
        assert(done.filter(not_blank()) =~= Seq::<Seq<u8>>::empty()) by {
            reveal(Seq::filter);
        }
        assert(bytes_view(out@) =~= Seq::<Seq<u8>>::empty());
        assert(lines_of(body@.take(0)) =~= done.push(cur@));
    }
    while i < body.len()
        invariant
            i <= body@.len(),
            lines_of(body@.take(i as int)) == done.push(cur@),
            bytes_view(out@) == done.filter(not_blank()),
        decreases body@.len() - i,
    {
        let b = body[i];
        proof {
            assert(body@.take(i + 1).drop_last() =~= body@.take(i as int));
            assert(body@.take(i + 1).last() == b);
        }
        if b == 10u8 {
            let ghost old_done = done;
            let ghost line = cur@;
            let ghost old_out = bytes_view(out@);
            proof {
                old_done.lemma_filter_push(line, not_blank());
                assert(not_blank()(line) == !is_blank(line));
                done = old_done.push(line);
            }
            if !blank(&cur) {
                out.push(cur);
                proof {
                    assert(bytes_view(out@) =~= old_out.push(line));
                    assert(done.filter(not_blank()) == old_done.filter(not_blank()).push(line));
                }
            } else {
                proof {
                    assert(bytes_view(out@) =~= old_out);
                    assert(done.filter(not_blank()) == old_done.filter(not_blank()));
                }
            }
            cur = Vec::new();
            proof {
                assert(lines_of(body@.take(i + 1)) =~= done.push(cur@));
            }
        } else {
            cur.push(b);
            proof {
                assert(lines_of(body@.take(i + 1)) =~= done.push(cur@));
            }
        }
        i += 1;
    }
    proof {
        assert(body@.take(i as int) =~= body@);
        done.lemma_filter_push(cur@, not_blank());
        assert(not_blank()(cur@) == !is_blank(cur@));
    }
    let ghost old_out = bytes_view(out@);
    if !blank(&cur) {
        out.push(cur);
        proof {
            assert(bytes_view(out@) =~= old_out.push(cur@));
        }
    } else {
        proof {
            assert(bytes_view(out@) =~= done.filter(not_blank()));
        }
    }
    out
}

} // verus!
