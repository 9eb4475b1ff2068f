use vstd::prelude::*;
use crate::bytes::{SLASH, append_bytes, starts_with};

verus! {

/// The pieces of `s` between `/` separators; empty pieces included, so never an
/// empty list.
pub open spec fn split_slash(s: Seq<u8>) -> Seq<Seq<u8>>
    decreases s.len(),
{
    if s.len() == 0 {
        seq![Seq::empty()]
    } else {
        let rest = split_slash(s.drop_last());
        if s.last() == SLASH {
            rest.push(Seq::empty())
        } else {
            rest.update(rest.len() - 1, rest.last().push(s.last()))
        }
    }
}

pub open spec fn dot() -> Seq<u8> {
    seq![46u8]
}

pub open spec fn dot_dot() -> Seq<u8> {
    seq![46u8, 46u8]
}

/// A segment that leaves the path where it is: empty (from `//` or a leading `/`) or `.`.
pub open spec fn is_skip(seg: Seq<u8>) -> bool {
    seg.len() == 0 || seg == dot()
}

pub open spec fn is_parent(seg: Seq<u8>) -> bool {
    seg == dot_dot()
}

/// A segment that names an entry below the current directory.
pub open spec fn is_normal(seg: Seq<u8>) -> bool {
    !is_skip(seg) && !is_parent(seg)
}

/// One step of the walk: a normal segment is pushed, `.` and empty ones are skipped,
/// `..` pops one segment and fails where there is none left.
pub open spec fn walk_step(acc: Option<Seq<Seq<u8>>>, seg: Seq<u8>) -> Option<Seq<Seq<u8>>> {
    match acc {
        None => None,
        Some(a) => if is_skip(seg) {
            Some(a)
        } else if is_parent(seg) {
            if a.len() == 0 {
                None
            } else {
                Some(a.drop_last())
            }
        } else {
            Some(a.push(seg))
        },
    }
}

/// The segments left after walking `segs` from the root, or `None` where a `..`
/// would leave the root.
pub open spec fn walk(segs: Seq<Seq<u8>>) -> Option<Seq<Seq<u8>>>
    decreases segs.len(),
{
    if segs.len() == 0 {
        Some(Seq::empty())
    } else {
        walk_step(walk(segs.drop_last()), segs.last())
    }
}

/// How far below the root the segments lead, counting each normal segment as one
/// step down and each `..` as one step up.
pub open spec fn depth(segs: Seq<Seq<u8>>) -> int
    decreases segs.len(),
{
    if segs.len() == 0 {
        0
    } else {
        depth(segs.drop_last()) + if is_parent(segs.last()) {
            -1int
        } else if is_skip(segs.last()) {
            0int
        } else {
            1int
        }
    }
}

/// Some prefix of the segments climbs above the root.
pub open spec fn escapes(segs: Seq<Seq<u8>>) -> bool {
    exists|k: int| 0 <= k <= segs.len() && #[trigger] depth(segs.take(k)) < 0
}

/// The directory under which a request is looked up: the base, extended by the
/// host's directory where one is given.
pub open spec fn host_root(base: Seq<u8>, host: Option<Seq<u8>>) -> Seq<u8> {
    match host {
        Some(h) => base + seq![SLASH] + h,
        None => base,
    }
}

/// `root` followed by each segment, each after a `/`.
pub open spec fn join(root: Seq<u8>, segs: Seq<Seq<u8>>) -> Seq<u8>
    decreases segs.len(),
{
    if segs.len() == 0 {
        root
    } else {
        join(root, segs.drop_last()) + seq![SLASH] + segs.last()
    }
}

/// The file path a resource names under `base` (and the host's directory), or
/// `None` where the resource climbs out of it.
pub open spec fn resolve(base: Seq<u8>, host: Option<Seq<u8>>, resource: Seq<u8>) -> Option<
    Seq<u8>,
> {
    match walk(split_slash(resource)) {
        Some(segs) => Some(join(host_root(base, host), segs)),
        None => None,
    }
}

pub open spec fn opt_view(host: Option<&[u8]>) -> Option<Seq<u8>> {
    match host {
        Some(h) => Some(h@),
        None => None,
    }
}

pub proof fn lemma_split_nonempty(s: Seq<u8>)
    ensures
        split_slash(s).len() >= 1,
    decreases s.len(),
{
    if s.len() > 0 {
        lemma_split_nonempty(s.drop_last());
    }
}

/// A walk fails exactly where some prefix of the segments climbs above the root;
/// where it succeeds, it ends `depth` segments down, each of them normal.
pub proof fn lemma_walk_fails_iff_escapes(segs: Seq<Seq<u8>>)
    ensures
        walk(segs) is None <==> escapes(segs),
        walk(segs) is Some ==> walk(segs)->0.len() == depth(segs),
        walk(segs) is Some ==> forall|j: int|
            0 <= j < walk(segs)->0.len() ==> is_normal(#[trigger] walk(segs)->0[j]),
    decreases segs.len(),
{
    if segs.len() == 0 {
        assert forall|k: int| 0 <= k <= segs.len() implies depth(#[trigger] segs.take(k)) >= 0 by {
            assert(segs.take(k).len() == 0);
        }
    } else {
        let p = segs.drop_last();
        lemma_walk_fails_iff_escapes(p);
        assert forall|k: int| 0 <= k <= p.len() implies #[trigger] segs.take(k) == p.take(k) by {
            assert(segs.take(k) =~= p.take(k));
        }
        assert(segs.take(segs.len() as int) =~= segs);
        if walk(p) is None {
            let k = choose|k: int| 0 <= k <= p.len() && #[trigger] depth(p.take(k)) < 0;
            assert(segs.take(k) == p.take(k));
            assert(depth(segs.take(k)) < 0);
        } else {
            assert forall|k: int| 0 <= k <= p.len() implies depth(#[trigger] segs.take(k)) >= 0 by {
                assert(segs.take(k) == p.take(k));
                if depth(p.take(k)) < 0 {
                    assert(escapes(p));
                }
            }
            let a = walk(p).unwrap();
            if walk(segs) is None {
                assert(depth(segs.take(segs.len() as int)) < 0);
            }
            if let Some(b) = walk(segs) {
                assert forall|j: int| 0 <= j < b.len() implies is_normal(#[trigger] b[j]) by {
                    if !is_skip(segs.last()) && !is_parent(segs.last()) && j == a.len() {
                    } else {
                        assert(b[j] == a[j]);
                    }
                }
                assert forall|k: int| 0 <= k <= segs.len() implies depth(
                    #[trigger] segs.take(k),
                ) >= 0 by {
                    if k <= p.len() {
                        assert(segs.take(k) == p.take(k));
                    } else {
                        assert(segs.take(k) =~= segs);
                    }
                }
            }
        }
    }
}

proof fn lemma_join_extends(root: Seq<u8>, segs: Seq<Seq<u8>>)
    ensures
        starts_with(join(root, segs), root),
    decreases segs.len(),
{
    if segs.len() > 0 {
        lemma_join_extends(root, segs.drop_last());
        let j = join(root, segs.drop_last());
        assert(join(root, segs).subrange(0, root.len() as int) =~= j.subrange(0, root.len() as int));
    } else {
        assert(root.subrange(0, root.len() as int) =~= root);
    }
}

/// A resolved path lies under the base directory, and under the host's directory
/// where one is given: it is that directory followed by normal segments only.
pub proof fn resolved_path_is_confined(base: Seq<u8>, host: Option<Seq<u8>>, resource: Seq<u8>)
    ensures
        resolve(base, host, resource) matches Some(p) ==> {
            &&& starts_with(p, base)
            &&& starts_with(p, host_root(base, host))
            &&& exists|segs: Seq<Seq<u8>>|
                p == join(host_root(base, host), segs) && forall|j: int|
                    0 <= j < segs.len() ==> is_normal(#[trigger] segs[j])
        },
{
    if let Some(p) = resolve(base, host, resource) {
        let segs = walk(split_slash(resource)).unwrap();
        lemma_walk_fails_iff_escapes(split_slash(resource));
        let root = host_root(base, host);
        lemma_join_extends(root, segs);
        assert(starts_with(root, base)) by {
            assert(root.subrange(0, base.len() as int) =~= base);
        }
        assert(p.subrange(0, base.len() as int) =~= root.subrange(0, base.len() as int));
    }
}

/// A resource whose `..` segments climb above the root at some point resolves to
/// no path, whatever the base directory and the host.
pub proof fn escaping_resource_never_resolves(
    base: Seq<u8>,
    host: Option<Seq<u8>>,
    resource: Seq<u8>,
)
    requires
        escapes(split_slash(resource)),
    ensures
        resolve(base, host, resource) is None,
{
    lemma_walk_fails_iff_escapes(split_slash(resource));
}

/// Applies one segment to the walked segments in `stack`; false where the walk fails.
fn apply_segment(stack: &mut Vec<Vec<u8>>, seg: Vec<u8>, Ghost(acc): Ghost<Seq<Seq<u8>>>) -> (ok:
    bool)
    requires
        old(stack)@.len() == acc.len(),
        forall|j: int| 0 <= j < acc.len() ==> #[trigger] old(stack)@[j]@ == acc[j],
    ensures
        ok ==> (walk_step(Some(acc), seg@) matches Some(b) && final(stack)@.len() == b.len()
            && forall|j: int| 0 <= j < b.len() ==> #[trigger] final(stack)@[j]@ == b[j]),
        !ok ==> walk_step(Some(acc), seg@) is None && final(stack)@ == old(stack)@,
{
    let n = seg.len();
    if n == 0 || (n == 1 && seg[0] == 46) {
        if n == 1 {
            assert(seg@ =~= dot());
        }
        true
    } else if n == 2 && seg[0] == 46 && seg[1] == 46 {
        assert(seg@ =~= dot_dot());
        if stack.len() == 0 {
            false
        } else {
            stack.pop();
            true
        }
    } else {
        assert(seg@ != dot()) by {
            if n == 1 {
                assert(seg@[0] != dot()[0]);
            }
        }
        assert(seg@ != dot_dot()) by {
            if n == 2 {
                assert(seg@[0] != dot_dot()[0] || seg@[1] != dot_dot()[1]);
            }
        }
        stack.push(seg);
        true
    }
}

/// Walks the segments of `resource` from the root; `None` where a `..` would
/// leave the root.
fn walk_resource(resource: &[u8]) -> (r: Option<Vec<Vec<u8>>>)
    ensures
        r is None <==> walk(split_slash(resource@)) is None,
        r matches Some(v) ==> v@.len() == walk(split_slash(resource@))->0.len() && forall|j: int|
            0 <= j < v@.len() ==> #[trigger] v@[j]@ == walk(split_slash(resource@))->0[j],
{
    let mut stack: Vec<Vec<u8>> = Vec::new();
    let mut cur: Vec<u8> = Vec::new();
    let mut failed = false;
    let ghost mut acc: Seq<Seq<u8>> = Seq::empty();
    let mut i: usize = 0;
    assert(resource@.subrange(0, 0) =~= Seq::<u8>::empty());
    while i < resource.len()
        invariant
            i <= resource.len(),
            split_slash(resource@.subrange(0, i as int)).len() >= 1,
            cur@ == split_slash(resource@.subrange(0, i as int)).last(),
            walk(split_slash(resource@.subrange(0, i as int)).drop_last()) == (if failed {
                None
            } else {
                Some(acc)
            }),
            stack@.len() == acc.len(),
            forall|j: int| 0 <= j < acc.len() ==> #[trigger] stack@[j]@ == acc[j],
        decreases resource.len() - i,
    {
        let ghost s = resource@.subrange(0, i as int);
        let ghost s1 = resource@.subrange(0, i + 1);
        assert(s1.drop_last() =~= s);
        assert(s1.last() == resource@[i as int]);
        proof {
            lemma_split_nonempty(s);
        }
        if resource[i] == SLASH {
            let seg = cur;
            cur = Vec::new();
            assert(split_slash(s1).drop_last() =~= split_slash(s));
            if !failed {
                let ghost before = acc;
                let ok = apply_segment(&mut stack, seg, Ghost(acc));
                if ok {
                    proof {
                        acc = walk_step(Some(before), seg@).unwrap();
                    }
                } else {
                    failed = true;
                }
            }
        } else {
            cur.push(resource[i]);
            assert(split_slash(s1).drop_last() =~= split_slash(s).drop_last());
        }
        i += 1;
    }
    let ghost s = resource@.subrange(0, i as int);
    assert(s =~= resource@);
    proof {
        lemma_split_nonempty(s);
    }
    if failed {
        None
    } else {
        let ok = apply_segment(&mut stack, cur, Ghost(acc));
        if ok {
            Some(stack)
        } else {
            None
        }
    }
}

/// The file path that `resource` names under `base`, extended by the directory
/// `host` where one is given: `base`, then `/host`, then `/` and each segment left
/// after the walk. `None` where a `..` would climb above that directory.
pub fn resolve_path(base: &[u8], host: Option<&[u8]>, resource: &[u8]) -> (r: Option<Vec<u8>>)
    ensures
        r is None <==> resolve(base@, opt_view(host), resource@) is None,
        r matches Some(p) ==> resolve(base@, opt_view(host), resource@) == Some(p@),
{
    let walked = walk_resource(resource);
    match walked {
        None => None,
        Some(segs) => {
            let ghost all = walk(split_slash(resource@))->0;
            let mut out: Vec<u8> = Vec::new();
            append_bytes(&mut out, base);
            match host {
                Some(h) => {
                    out.push(SLASH);
                    append_bytes(&mut out, h);
                },
                None => {},
            }
            let ghost root = host_root(base@, opt_view(host));
            assert(out@ =~= root);
            let mut k: usize = 0;
            while k < segs.len()
                invariant
                    k <= segs@.len(),
                    segs@.len() == all.len(),
                    forall|j: int| 0 <= j < all.len() ==> #[trigger] segs@[j]@ == all[j],
                    out@ == join(root, all.take(k as int)),
                decreases segs.len() - k,
            {
                out.push(SLASH);
                append_bytes(&mut out, segs[k].as_slice());
                assert(all.take(k + 1).drop_last() =~= all.take(k as int));
                k += 1;
            }
            assert(all.take(k as int) =~= all);
            Some(out)
        },
    }
}

} // verus!
