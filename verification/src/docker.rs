//! Docker integration: what the `docker` CLI reports, and which layer
//! directories it marks as in use.
//!
//! Running `docker` happens elsewhere; this module reads its output.

use vstd::prelude::*;

use crate::text::{chars_of, trim, trim_text};

verus! {

/// The `Data` object of a `GraphDriver` in `docker inspect` output.
#[derive(Debug, Default)]
pub struct GraphDriverData {
    /// The layer directory backing the image or container, where reported.
    pub dir: Option<String>,
}

/// The `GraphDriver` object of one `docker inspect` record.
#[derive(Debug)]
pub struct InspectGraphDriver {
    pub data: GraphDriverData,
}

/// One record of `docker inspect` output.
#[derive(Debug)]
pub struct InspectRecord {
    pub graph_driver: Option<InspectGraphDriver>,
}

/// The layer directory that the first record of `docker inspect` output
/// names, if any.
pub open spec fn first_dir(records: Seq<InspectRecord>) -> Option<Seq<char>> {
    if records.len() == 0 {
        None
    } else {
        match records[0].graph_driver {
            Some(g) => match g.data.dir {
                Some(d) => Some(d@),
                None => None,
            },
            None => None,
        }
    }
}

/// The layer directory that the first inspected record names, if any.
pub fn first_record_dir(records: Vec<InspectRecord>) -> (dir: Option<String>)
    ensures
        match dir {
            Some(d) => first_dir(records@) == Some(d@),
            None => first_dir(records@) is None,
        },
{
    let mut records = records;
    if records.len() == 0 {
        return None;
    }
    let first = records.swap_remove(0);
    match first.graph_driver {
        Some(g) => g.data.dir,
        None => None,
    }
}

/// `s` cut at every newline into the pieces between them (one piece when
/// there is no newline; the last piece is empty when `s` ends in one).
pub open spec fn split_lines(s: Seq<char>) -> Seq<Seq<char>>
    decreases s.len(),
{
    if s.len() == 0 {
        seq![Seq::empty()]
    } else {
        let pieces = split_lines(s.drop_last());
        if s.last() == '\n' {
            pieces.push(Seq::empty())
        } else {
            pieces.update(pieces.len() - 1, pieces.last().push(s.last()))
        }
    }
}

/// The ids listed in `docker ... -q` output: each line with surrounding
/// whitespace removed (which also drops a `\r` before the newline), blank
/// lines left out.
pub open spec fn id_lines(s: Seq<char>) -> Seq<Seq<char>> {
    split_lines(s).map_values(|l: Seq<char>| trim_text(l)).filter(|l: Seq<char>| l.len() > 0)
}

/// The ids listed, one per line, in the output of `docker images -q` or
/// `docker ps -a -q`.
pub fn parse_id_lines(stdout: &str) -> (ids: Vec<String>)
    ensures
        ids@.map_values(|x: String| x@) == id_lines(stdout@),
{
    let ghost s = stdout@;
    let ghost tr = |l: Seq<char>| trim_text(l);
    let ghost keep = |l: Seq<char>| l.len() > 0;
    let chars = chars_of(stdout);
    let n = chars.len();
    let mut ids: Vec<String> = Vec::new();
    let mut start: usize = 0;
    proof {
        assert(s.take(0) =~= Seq::<char>::empty());
        assert(split_lines(s.take(0)).drop_last() =~= Seq::<Seq<char>>::empty());
        assert(s.subrange(0, 0) =~= Seq::<char>::empty());
    }
    for i in 0..n
        invariant
            n == s.len(),
            chars@ == s,
            stdout@ == s,
            tr == (|l: Seq<char>| trim_text(l)),
            keep == (|l: Seq<char>| l.len() > 0),
            start <= i,
            split_lines(s.take(i as int)).len() >= 1,
            split_lines(s.take(i as int)).last() == s.subrange(start as int, i as int),
            ids@.map_values(|x: String| x@) == split_lines(s.take(i as int)).drop_last().map_values(
                tr,
            ).filter(keep),
    {
        let ghost prev = split_lines(s.take(i as int));
        proof {
            assert(s.take(i + 1).drop_last() =~= s.take(i as int));
            assert(s.take(i + 1).last() == s[i as int]);
        }
        if chars[i] == '\n' {
            let piece = trim(stdout.substring_char(start, i));
            let ghost before = ids@.map_values(|x: String| x@);
            if piece.unicode_len() > 0 {
                ids.push(piece.to_owned());
            }
            proof {
                let done = prev.drop_last();
                assert(split_lines(s.take(i + 1)) == prev.push(Seq::empty()));
                assert(split_lines(s.take(i + 1)).drop_last() =~= done.push(prev.last()));
                done.lemma_push_map_commute(tr, prev.last());
                done.map_values(tr).lemma_filter_push(tr(prev.last()), keep);
                assert(done.push(prev.last()).map_values(tr) =~= done.map_values(tr).push(
                    tr(prev.last()),
                ));
                assert(ids@.map_values(|x: String| x@) =~= split_lines(
                    s.take(i + 1),
                ).drop_last().map_values(tr).filter(keep));
                assert(s.subrange(i + 1, i + 1) =~= Seq::<char>::empty());
            }
            start = i + 1;
        } else {
            proof {
                assert(split_lines(s.take(i + 1)) == prev.update(
                    prev.len() - 1,
                    prev.last().push(s[i as int]),
                ));
                assert(split_lines(s.take(i + 1)).drop_last() =~= prev.drop_last());
                assert(s.subrange(start as int, i + 1) =~= s.subrange(start as int, i as int).push(
                    s[i as int],
                ));
            }
        }
    }
    let last = trim(stdout.substring_char(start, n));
    let ghost before = ids@.map_values(|x: String| x@);
    if last.unicode_len() > 0 {
        ids.push(last.to_owned());
    }
    proof {
        let all = split_lines(s);
        assert(s.take(n as int) =~= s);
        let done = all.drop_last();
        assert(all =~= done.push(all.last()));
        done.lemma_push_map_commute(tr, all.last());
        done.map_values(tr).lemma_filter_push(tr(all.last()), keep);
        assert(ids@.map_values(|x: String| x@) =~= id_lines(s));
    }
    ids
}

} // verus!
