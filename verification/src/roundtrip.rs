//! A reference client's view of a serialized response, and the proof
//! that serializing any well-formed response and parsing it back
//! reproduces its status line, headers (names case-folded) and body.

use vstd::prelude::*;
use crate::request::{
    colon_sp, crlf, crlf_crlf, header_lines, line_name, line_value, valid_header_line,
};
use crate::response::{
    spec_format_headers, spec_format_response, wf_header_pair, wf_response, RespModel,
};
use crate::strkit::{
    find_from, fold_chars, has_at, lemma_find_from_is, lemma_find_from_is_none, split_by,
};

verus! {

/// How a reference client reads a serialized response: the first line
/// whole as the status line, then the header block up to the blank line
/// (names case-folded, as our own parser folds them), then the body.
pub open spec fn spec_parse_response(s: Seq<char>) -> Option<
    (Seq<char>, Seq<(Seq<char>, Seq<char>)>, Seq<char>),
> {
    match find_from(s, crlf(), 0) {
        None => None,
        Some(i) => {
            let status_line = s.subrange(0, i);
            let rest = s.subrange(i + 2, s.len() as int);
            match find_from(rest, crlf_crlf(), 0) {
                None => None,
                Some(j) => {
                    let block = rest.subrange(0, j);
                    let body = rest.subrange(j + 4, rest.len() as int);
                    let lines = header_lines(block);
                    if exists|t: int|
                        0 <= t < lines.len() && !valid_header_line(#[trigger] lines[t]) {
                        None
                    } else {
                        Some(
                            (
                                status_line,
                                Seq::new(
                                    lines.len(),
                                    |t: int|
                                        (fold_chars(line_name(lines[t])), line_value(lines[t])),
                                ),
                                body,
                            ),
                        )
                    }
                },
            }
        },
    }
}

/// The serialized header line of a pair.
pub open spec fn hline(h: (Seq<char>, Seq<char>)) -> Seq<char> {
    crate::headers::spec_header_line(h.0, h.1)
}

/// Character layout of one well-formed header line: the name, then
/// `": "`, then the value, with no CR or LF anywhere.
proof fn lemma_header_line_chars(h: (Seq<char>, Seq<char>))
    requires
        wf_header_pair(h),
    ensures
        hline(h).len() == h.0.len() + 2 + h.1.len(),
        forall|k: int| 0 <= k < hline(h).len() ==> hline(h)[k] != '\r' && hline(h)[k] != '\n',
        forall|k: int| 0 <= k < h.0.len() ==> hline(h)[k] == h.0[k],
        hline(h)[h.0.len() as int] == ':',
        hline(h)[h.0.len() as int + 1] == ' ',
        forall|k: int| 0 <= k < h.1.len() ==> hline(h)[h.0.len() as int + 2 + k] == h.1[k],
{
    let l = hline(h);
    assert forall|k: int| 0 <= k < l.len() implies l[k] != '\r' && l[k] != '\n' by {
        if k < h.0.len() {
            assert(l[k] == h.0[k]);
        } else if k == h.0.len() {
            assert(l[k] == ':');
        } else if k == h.0.len() + 1 {
            assert(l[k] == ' ');
        } else {
            assert(l[k] == h.1[k - h.0.len() - 2]);
        }
    }
    assert forall|k: int| 0 <= k < h.1.len() implies l[h.0.len() as int + 2 + k] == h.1[k] by {}
}

/// In a joined header block, every CRLF is a separator: it is followed
/// by a character that is not CR, the block neither starts nor ends in
/// the middle of a line break, and the block of one or more headers is
/// nonempty.
proof fn lemma_join_ok(hs: Seq<(Seq<char>, Seq<char>)>)
    requires
        forall|i: int| 0 <= i < hs.len() ==> wf_header_pair(#[trigger] hs[i]),
    ensures
        forall|i: int|
            has_at(spec_format_headers(hs), crlf(), i) ==> i + 2 < spec_format_headers(hs).len()
                && spec_format_headers(hs)[i + 2] != '\r',
        spec_format_headers(hs).len() > 0 ==> spec_format_headers(hs)[spec_format_headers(
            hs,
        ).len() - 1] != '\r' && spec_format_headers(hs)[spec_format_headers(hs).len() - 1] != '\n',
        spec_format_headers(hs).len() > 0 ==> spec_format_headers(hs)[0] != '\r'
            && spec_format_headers(hs)[0] != '\n',
        hs.len() > 0 ==> spec_format_headers(hs).len() > 0,
    decreases hs.len(),
{
    let jn = spec_format_headers(hs);
    if hs.len() == 0 {
    } else if hs.len() == 1 {
        lemma_header_line_chars(hs[0]);
        assert(jn == hline(hs[0]));
        assert forall|i: int| has_at(jn, crlf(), i) implies i + 2 < jn.len() && jn[i + 2]
            != '\r' by {
            assert(jn[i] == crlf()[0]);
            assert(jn[i] == '\r');
            assert(false);
        }
        assert(jn[0] == hline(hs[0])[0]);
    } else {
        let dl = hs.drop_last();
        let last = hs.last();
        assert(forall|i: int| 0 <= i < dl.len() ==> dl[i] == hs[i]);
        lemma_join_ok(dl);
        lemma_header_line_chars(last);
        let jd = spec_format_headers(dl);
        let fl = hline(last);
        assert(jn == jd + crlf() + fl);
        assert(fl.len() >= 3);
        assert(jd.len() > 0);
        assert forall|i: int| has_at(jn, crlf(), i) implies i + 2 < jn.len() && jn[i + 2]
            != '\r' by {
            assert(jn[i] == crlf()[0] && jn[i + 1] == crlf()[1]);
            assert(jn[i] == '\r' && jn[i + 1] == '\n');
            if i + 2 <= jd.len() {
                assert(jn[i] == jd[i] && jn[i + 1] == jd[i + 1]);
                assert(has_at(jd, crlf(), i));
                assert(i + 2 < jd.len() && jd[i + 2] != '\r');
                assert(jn[i + 2] == jd[i + 2]);
            } else if i == jd.len() - 1 {
                assert(jn[i] == jd[jd.len() - 1]);
                assert(false);
            } else if i == jd.len() {
                assert(jn[i + 2] == fl[0]);
                assert(fl[0] == last.0[0]);
                assert(last.0[0] != '\r');
            } else if i == jd.len() + 1 {
                assert(jn[i] == crlf()[1]);
                assert(false);
            } else {
                assert(jn[i] == fl[i - jd.len() - 2]);
                assert(false);
            }
        }
        assert(jn[jn.len() - 1] == fl[fl.len() - 1]);
        assert(jn[0] == jd[0]);
    }
}

/// A block of two or more headers decomposes at the front as well.
proof fn lemma_join_front(hs: Seq<(Seq<char>, Seq<char>)>)
    requires
        hs.len() >= 2,
    ensures
        spec_format_headers(hs) == hline(hs[0]) + crlf() + spec_format_headers(hs.drop_first()),
    decreases hs.len(),
{
    let dl = hs.drop_last();
    let df = hs.drop_first();
    if hs.len() == 2 {
        assert(dl =~= seq![hs[0]]);
        assert(df =~= seq![hs[1]]);
        assert(spec_format_headers(dl) == hline(hs[0]));
        assert(spec_format_headers(df) == hline(hs[1]));
        assert(hs.last() == hs[1]);
    } else {
        lemma_join_front(dl);
        assert(dl[0] == hs[0]);
        assert(dl.drop_first() =~= df.drop_last());
        assert(df.last() == hs.last());
        assert(spec_format_headers(df) == spec_format_headers(df.drop_last()) + crlf() + hline(
            df.last(),
        ));
        assert(spec_format_headers(hs) == spec_format_headers(dl) + crlf() + hline(hs.last()));
        assert(spec_format_headers(hs) =~= hline(hs[0]) + crlf() + spec_format_headers(df));
    }
}

/// Splitting the joined block on CRLF gives back exactly the header
/// lines.
proof fn lemma_split_join(hs: Seq<(Seq<char>, Seq<char>)>)
    requires
        hs.len() > 0,
        forall|i: int| 0 <= i < hs.len() ==> wf_header_pair(#[trigger] hs[i]),
    ensures
        split_by(spec_format_headers(hs), crlf()) =~= Seq::new(
            hs.len(),
            |i: int| hline(hs[i]),
        ),
    decreases hs.len(),
{
    let jn = spec_format_headers(hs);
    if hs.len() == 1 {
        lemma_header_line_chars(hs[0]);
        assert forall|p: int| 0 <= p implies !has_at(jn, crlf(), p) by {
            if p + 2 <= jn.len() {
                assert(jn[p] != '\r');
            }
        }
        lemma_find_from_is_none(jn, crlf(), 0);
        assert(split_by(jn, crlf()) =~= seq![jn]);
    } else {
        let df = hs.drop_first();
        let f0 = hline(hs[0]);
        lemma_join_front(hs);
        lemma_header_line_chars(hs[0]);
        assert(forall|i: int| 0 <= i < df.len() ==> df[i] == hs[i + 1]);
        assert(jn == f0 + crlf() + spec_format_headers(df));
        assert(has_at(jn, crlf(), f0.len() as int));
        assert forall|p: int| 0 <= p < f0.len() implies !has_at(jn, crlf(), p) by {
            assert(jn[p] == f0[p]);
            assert(f0[p] != '\r');
        }
        lemma_find_from_is(jn, crlf(), 0, f0.len() as int);
        assert(jn.subrange(0, f0.len() as int) =~= f0);
        assert(jn.subrange(f0.len() as int + 2, jn.len() as int) =~= spec_format_headers(df));
        lemma_split_join(df);
        assert(split_by(jn, crlf()) == seq![f0] + split_by(spec_format_headers(df), crlf()));
    }
}

/// Parsing one well-formed header line on `": "` recovers its name and
/// value, and nothing else.
proof fn lemma_header_line_parse(h: (Seq<char>, Seq<char>))
    requires
        wf_header_pair(h),
    ensures
        valid_header_line(hline(h)),
        line_name(hline(h)) == h.0,
        line_value(hline(h)) == h.1,
{
    let l = hline(h);
    lemma_header_line_chars(h);
    assert(has_at(l, colon_sp(), h.0.len() as int));
    assert forall|p: int| 0 <= p < h.0.len() implies !has_at(l, colon_sp(), p) by {
        assert(l[p] == h.0[p]);
        assert(h.0[p] != ':');
    }
    lemma_find_from_is(l, colon_sp(), 0, h.0.len() as int);
    assert(l.subrange(0, h.0.len() as int) =~= h.0);
    assert(l.subrange(h.0.len() as int + 2, l.len() as int) =~= h.1);
    assert(split_by(h.1, colon_sp()) =~= seq![h.1]);
    assert(split_by(l, colon_sp()) =~= seq![h.0] + split_by(h.1, colon_sp()));
    assert(split_by(l, colon_sp()) =~= seq![h.0, h.1]);
}

/// Serializing any well-formed response and parsing it back as a
/// reference client reproduces the status line, the headers with their
/// names case-folded, and the body, exactly.
#[verifier::rlimit(50)]
pub proof fn lemma_response_round_trip(m: RespModel)
    requires
        wf_response(m),
    ensures
        spec_parse_response(spec_format_response(m)) == Some(
            (
                m.status_line,
                Seq::new(m.headers.len(), |i: int| (fold_chars(m.headers[i].0), m.headers[i].1)),
                m.data,
            ),
        ),
{
    let sl = m.status_line;
    let jn = spec_format_headers(m.headers);
    let s = spec_format_response(m);
    lemma_join_ok(m.headers);
    assert(s == sl + crlf() + jn + crlf_crlf() + m.data);
    assert(s.len() == sl.len() + 2 + jn.len() + 4 + m.data.len());

    // The first CRLF ends the status line.
    assert(s[sl.len() as int] == '\r' && s[sl.len() as int + 1] == '\n');
    assert(has_at(s, crlf(), sl.len() as int));
    assert forall|p: int| 0 <= p < sl.len() implies !has_at(s, crlf(), p) by {
        assert(s[p] == sl[p]);
        assert(sl[p] != '\r');
    }
    lemma_find_from_is(s, crlf(), 0, sl.len() as int);
    assert(s.subrange(0, sl.len() as int) =~= sl);
    let rest = s.subrange(sl.len() as int + 2, s.len() as int);
    assert(rest =~= jn + crlf_crlf() + m.data);

    // The first blank line ends the header block.
    assert(rest[jn.len() as int] == '\r' && rest[jn.len() as int + 1] == '\n' && rest[jn.len() as int + 2]
        == '\r' && rest[jn.len() as int + 3] == '\n');
    assert(has_at(rest, crlf_crlf(), jn.len() as int));
    assert forall|p: int| 0 <= p < jn.len() implies !has_at(rest, crlf_crlf(), p) by {
        if has_at(rest, crlf_crlf(), p) {
            assert(rest[p + 0] == crlf_crlf()[0]);
            assert(rest[p + 1] == crlf_crlf()[1]);
            assert(rest[p + 2] == crlf_crlf()[2]);
            assert(rest[p] == '\r' && rest[p + 1] == '\n' && rest[p + 2] == '\r');
            if p + 2 <= jn.len() {
                assert(rest[p] == jn[p] && rest[p + 1] == jn[p + 1]);
                assert(has_at(jn, crlf(), p));
                assert(p + 2 < jn.len() && jn[p + 2] != '\r');
                assert(rest[p + 2] == jn[p + 2]);
                assert(false);
            } else {
                assert(p == jn.len() - 1);
                assert(rest[p] == jn[jn.len() - 1]);
                assert(false);
            }
        }
    }
    lemma_find_from_is(rest, crlf_crlf(), 0, jn.len() as int);
    let block = rest.subrange(0, jn.len() as int);
    let body = rest.subrange(jn.len() as int + 4, rest.len() as int);
    assert(block =~= jn);
    assert(body =~= m.data);

    // The block splits back into the header lines, each of which parses.
    let lines = header_lines(block);
    if m.headers.len() == 0 {
        assert(lines =~= Seq::<Seq<char>>::empty());
        assert(Seq::new(lines.len(), |t: int| (fold_chars(line_name(lines[t])), line_value(
            lines[t],
        ))) =~= Seq::new(m.headers.len(), |i: int| (fold_chars(m.headers[i].0), m.headers[i].1)));
    } else {
        lemma_split_join(m.headers);
        assert(jn.len() > 0);
        assert(lines =~= Seq::new(m.headers.len(), |i: int| hline(m.headers[i])));
        assert forall|t: int| 0 <= t < lines.len() implies valid_header_line(#[trigger] lines[t])
            && line_name(lines[t]) == m.headers[t].0 && line_value(lines[t]) == m.headers[t].1 by {
            assert(lines[t] == hline(m.headers[t]));
            lemma_header_line_parse(m.headers[t]);
        }
        assert(Seq::new(lines.len(), |t: int| (fold_chars(line_name(lines[t])), line_value(
            lines[t],
        ))) =~= Seq::new(m.headers.len(), |i: int| (fold_chars(m.headers[i].0), m.headers[i].1)));
    }
}

} // verus!
