use vstd::prelude::*;
use crate::errors::{add_context, Error};
use crate::sys::{make_inplace_cstr, spec_cstr_ok};
use crate::utils::copy_bytes;

verus! {

/// The separators of the mount table: a space or a record terminator.
pub open spec fn is_mount_sep(c: u8) -> bool {
    c == 32 || c == 0
}

/// The inclusive split of a mount-table line: each token ends with the
/// separator that closed it, and the last token may end without one. No
/// token is empty.
pub open spec fn spec_tokens_incl(s: Seq<u8>) -> Seq<Seq<u8>>
    decreases s.len(),
{
    if s.len() == 0 {
        Seq::empty()
    } else {
        let t = spec_tokens_incl(s.drop_last());
        let c = s.last();
        if t.len() > 0 && !is_mount_sep(t.last().last()) {
            t.update(t.len() - 1, t.last().push(c))
        } else {
            t.push(seq![c])
        }
    }
}

/// The views of a sequence of owned byte vectors.
pub open spec fn mount_views(v: Seq<Vec<u8>>) -> Seq<Seq<u8>> {
    Seq::new(v.len(), |i: int| v[i]@)
}

/// Split a mount-table line inclusively on spaces and record terminators.
fn tokenize_incl(line: &[u8]) -> (r: Vec<Vec<u8>>)
    ensures
        mount_views(r@) == spec_tokens_incl(line@),
{
    let n = line.len();
    let mut toks: Vec<Vec<u8>> = Vec::new();
    let mut i: usize = 0;
    while i < n
        invariant
            0 <= i <= n,
            n == line@.len(),
            mount_views(toks@) == spec_tokens_incl(line@.take(i as int)),
            i == 0 ==> toks@.len() == 0,
            i > 0 ==> (toks@.len() > 0 && toks@.last()@.len() > 0 && toks@.last()@.last()
                == line@[i - 1]),
        decreases n - i,
    {
        let c = line[i];
        let ghost pre = line@.take(i as int);
        let ghost cur = line@.take(i as int + 1);
        proof {
            assert(cur.drop_last() =~= pre);
            assert(cur.last() == line@[i as int]);
            if i > 0 {
                assert(spec_tokens_incl(pre).last() == toks@.last()@);
            }
        }
        if i > 0 && !(line[i - 1] == 32 || line[i - 1] == 0) {
            let mut last = toks.pop().unwrap();
            last.push(c);
            toks.push(last);
            proof {
                assert(mount_views(toks@) =~= spec_tokens_incl(pre).update(
                    spec_tokens_incl(pre).len() - 1,
                    spec_tokens_incl(pre).last().push(c),
                ));
            }
        } else {
            let mut t: Vec<u8> = Vec::new();
            t.push(c);
            toks.push(t);
            proof {
                assert(t@ =~= seq![c]);
                if i > 0 {
                    assert(is_mount_sep(spec_tokens_incl(pre).last().last()));
                }
                assert(mount_views(toks@) =~= spec_tokens_incl(pre).push(seq![c]));
            }
        }
        i = i + 1;
    }
    proof {
        assert(line@.take(n as int) =~= line@);
    }
    toks
}

/// The source prefix that marks a block device: `"/dev/"`.
pub open spec fn spec_dev_prefix() -> Seq<u8> {
    seq![47u8, 100u8, 101u8, 118u8, 47u8]
}

/// What one mount-table line means for a device key: a malformed line, a
/// line of some other source, or the mount point of a filesystem backed by
/// the device, terminated in place.
pub enum MountOutcome {
    /// A token is missing, or the mount point cannot be terminated.
    Bad,
    /// The source is not under `/dev/`, or not this device.
    Skip,
    /// The mount point of a filesystem backed by the device.
    Point { point: Seq<u8> },
}

/// The meaning of one mount-table line for a device key. The source token
/// must carry the `/dev/` prefix and then the device key itself (a
/// partition of the device matches too, since only a prefix is compared).
pub open spec fn spec_mount_line(line: Seq<u8>, dev: Seq<u8>) -> MountOutcome {
    let toks = spec_tokens_incl(line);
    if toks.len() < 1 {
        MountOutcome::Bad
    } else if toks[0].len() < 5 + dev.len() as int || toks[0].take(5) != spec_dev_prefix() || toks[0]
        .subrange(5, 5 + dev.len() as int) != dev {
        MountOutcome::Skip
    } else if toks.len() < 2 || !spec_cstr_ok(toks[1]) {
        MountOutcome::Bad
    } else {
        MountOutcome::Point { point: toks[1].update(toks[1].len() - 1, 0u8) }
    }
}

/// Whether `a` begins with `prefix`, byte for byte.
fn starts_with(a: &[u8], prefix: &[u8]) -> (r: bool)
    ensures
        r == (a@.len() >= prefix@.len() && a@.take(prefix@.len() as int) == prefix@),
{
    let np = prefix.len();
    if a.len() < np {
        proof {
            assert(a@.len() < prefix@.len());
        }
        return false;
    }
    let mut i: usize = 0;
    while i < np
        invariant
            0 <= i <= np,
            np == prefix@.len(),
            np <= a@.len(),
            forall|j: int| 0 <= j < i ==> a@[j] == prefix@[j],
        decreases np - i,
    {
        if a[i] != prefix[i] {
            proof {
                assert(a@.take(np as int)[i as int] != prefix@[i as int]);
            }
            return false;
        }
        i = i + 1;
    }
    proof {
        assert(a@.take(np as int) =~= prefix@);
    }
    true
}

/// Parse one mount-table line against a device key: the mount point of a
/// filesystem whose source is `/dev/` followed by the key (or a partition
/// of it), terminated in place for the OS call; `None` for any other
/// source.
pub fn parse_line(line: &[u8], dev_name: &[u8]) -> (r: Result<Option<Vec<u8>>, Error>)
    ensures
        r is Err <==> spec_mount_line(line@, dev_name@) is Bad,
        (r matches Ok(o) && o is None) <==> spec_mount_line(line@, dev_name@) is Skip,
        spec_mount_line(line@, dev_name@) matches MountOutcome::Point { point } ==> (r matches Ok(
            Some(p),
        ) && p@ == point),
{
    let toks = tokenize_incl(line);
    let ghost stoks = spec_tokens_incl(line@);
    proof {
        assert(stoks.len() == toks@.len());
        assert(forall|j: int| 0 <= j < toks@.len() ==> mount_views(toks@)[j] == stoks[j]);
    }
    if toks.len() < 1 {
        return Err(add_context("Expected token", "Parsing mount source"));
    }
    let source = &toks[0];
    let mut prefix: Vec<u8> = Vec::new();
    prefix.push(47);
    prefix.push(100);
    prefix.push(101);
    prefix.push(118);
    prefix.push(47);
    proof {
        assert(prefix@ =~= spec_dev_prefix());
    }
    if !starts_with(source.as_slice(), prefix.as_slice()) {
        proof {
            if source@.len() >= 5 + dev_name@.len() as int && source@.take(5) == spec_dev_prefix() {
                assert(source@.take(5) =~= source@.take(5));
                assert(false);
            }
        }
        return Ok(None);
    }
    let rest = copy_bytes_from(source.as_slice(), 5);
    if !starts_with(rest.as_slice(), dev_name) {
        proof {
            let dlen = dev_name@.len() as int;
            if source@.len() >= 5 + dlen {
                assert(rest@.take(dlen) =~= source@.subrange(5, 5 + dlen));
                assert(source@.subrange(5, 5 + dlen) != dev_name@);
            }
            assert(spec_mount_line(line@, dev_name@) is Skip);
        }
        return Ok(None);
    }
    proof {
        let dlen = dev_name@.len() as int;
        assert(rest@.len() >= dlen);
        assert(source@.subrange(5, 5 + dlen) =~= rest@.take(dlen));
    }
    if toks.len() < 2 {
        return Err(add_context("Expected token", "Parsing mount point"));
    }
    let mut point = copy_bytes(toks[1].as_slice());
    match make_inplace_cstr(&mut point) {
        Ok(()) => Ok(Some(point)),
        Err(e) => Err(add_context(e, "Parsing mount point")),
    }
}

/// An owned copy of `src[from..]`.
fn copy_bytes_from(src: &[u8], from: usize) -> (r: Vec<u8>)
    requires
        from <= src@.len(),
    ensures
        r@ == src@.skip(from as int),
{
    let n = src.len();
    let mut r: Vec<u8> = Vec::new();
    let mut i: usize = from;
    while i < n
        invariant
            from <= i <= n,
            n == src@.len(),
            r@ == src@.subrange(from as int, i as int),
        decreases n - i,
    {
        r.push(src[i]);
        proof {
            assert(r@ =~= src@.subrange(from as int, i + 1));
        }
        i = i + 1;
    }
    proof {
        assert(src@.subrange(from as int, n as int) =~= src@.skip(from as int));
    }
    r
}

/// The mount points of the device's filesystems after the first `n` lines,
/// or `None` when one of them is malformed.
pub open spec fn spec_for_dev_upto(lines: Seq<Seq<u8>>, dev: Seq<u8>, n: int) -> Option<
    Seq<Seq<u8>>,
>
    decreases n,
{
    if n <= 0 {
        Some(Seq::empty())
    } else {
        match spec_for_dev_upto(lines, dev, n - 1) {
            None => None,
            Some(acc) => {
                if lines[n - 1].len() == 0 {
                    Some(acc)
                } else {
                    match spec_mount_line(lines[n - 1], dev) {
                        MountOutcome::Bad => None,
                        MountOutcome::Skip => Some(acc),
                        MountOutcome::Point { point } => Some(acc.push(point)),
                    }
                }
            },
        }
    }
}

/// Collect the mount points of every filesystem backed by the device from
/// the mount table's lines, each terminated in place for the OS call.
/// Empty lines are ignored; a malformed line aborts with an error.
pub fn for_dev(lines: &Vec<Vec<u8>>, dev_name: &[u8]) -> (r: Result<Vec<Vec<u8>>, Error>)
    ensures
        r is Ok <==> spec_for_dev_upto(mount_views(lines@), dev_name@, lines@.len() as int)
            is Some,
        r matches Ok(ps) ==> Some(mount_views(ps@)) == spec_for_dev_upto(
            mount_views(lines@),
            dev_name@,
            lines@.len() as int,
        ),
{
    let ghost lviews = mount_views(lines@);
    let mut points: Vec<Vec<u8>> = Vec::new();
    let n = lines.len();
    let mut i: usize = 0;
    while i < n
        invariant
            0 <= i <= n,
            n == lines@.len(),
            lviews == mount_views(lines@),
            Some(mount_views(points@)) == spec_for_dev_upto(lviews, dev_name@, i as int),
        decreases n - i,
    {
        proof {
            assert(lviews[i as int] == lines@[i as int]@);
        }
        let line = &lines[i];
        if line.len() > 0 {
            match parse_line(line.as_slice(), dev_name) {
                Err(e) => {
                    proof {
                        assert(spec_for_dev_upto(lviews, dev_name@, i + 1) is None);
                        lemma_for_dev_none_sticks(lviews, dev_name@, i + 1, lviews.len() as int);
                    }
                    return Err(e);
                },
                Ok(None) => {
                    proof {
                        assert(spec_for_dev_upto(lviews, dev_name@, i + 1) == spec_for_dev_upto(
                            lviews,
                            dev_name@,
                            i as int,
                        ));
                    }
                },
                Ok(Some(p)) => {
                    let ghost snap = points@;
                    let ghost pv = p@;
                    points.push(p);
                    proof {
                        assert(points@ =~= snap.push(points@[snap.len() as int]));
                        assert(mount_views(points@) =~= mount_views(snap).push(pv));
                    }
                },
            }
        }
        i = i + 1;
    }
    proof {
        assert(mount_views(lines@).len() == lines@.len());
    }
    Ok(points)
}

/// Once a malformed line has aborted the scan, every longer prefix aborts
/// too.
proof fn lemma_for_dev_none_sticks(lines: Seq<Seq<u8>>, dev: Seq<u8>, k: int, n: int)
    requires
        0 <= k <= n,
        spec_for_dev_upto(lines, dev, k) is None,
    ensures
        spec_for_dev_upto(lines, dev, n) is None,
    decreases n - k,
{
    if n > k {
        lemma_for_dev_none_sticks(lines, dev, k, n - 1);
    }
}

} // verus!
