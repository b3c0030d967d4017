//! Chains of job wrappers.
use vstd::prelude::*;

verus! {

/// A list of job wrappers, applied to a job so that the first wrapper is the
/// outermost one.
#[derive(Clone)]
pub struct Chain<W> {
    wrappers: Vec<W>,
}

/// `r` is what the wrappers `ws` make of `job`: `job` passed through the
/// last wrapper, its result through the one before, and so on to the first.
pub open spec fn wrapped_by<W: Fn(J) -> J, J>(ws: Seq<W>, job: J, r: J) -> bool {
    exists|js: Seq<J>|
        #![trigger js.len()]
        js.len() == ws.len() + 1 && js[ws.len() as int] == job && js[0] == r && forall|i: int|
            0 <= i < ws.len() ==> call_ensures(#[trigger] ws[i], (js[i + 1],), js[i])
}

/// Wrapping in the wrappers `a + b` is wrapping in `b`, then in `a`: a chain
/// of a joined list is the two chains applied in turn.
pub proof fn lemma_wrapped_by_join<W: Fn(J) -> J, J>(a: Seq<W>, b: Seq<W>, job: J, r: J)
    ensures
        wrapped_by(a + b, job, r) <==> exists|mid: J| wrapped_by(b, job, mid) && wrapped_by(a, mid, r),
{
    let n: int = a.len() as int;
    let ab = a + b;
    if wrapped_by(ab, job, r) {
        let js = choose|js: Seq<J>|
            #![trigger js.len()]
            js.len() == ab.len() + 1 && js[ab.len() as int] == job && js[0] == r && forall|i: int|
                0 <= i < ab.len() ==> call_ensures(#[trigger] ab[i], (js[i + 1],), js[i]);
        let mid = js[n];
        let jb = js.subrange(n, js.len() as int);
        let ja = js.subrange(0, n + 1);
        assert forall|i: int| 0 <= i < b.len() implies call_ensures(#[trigger] b[i], (jb[i + 1],), jb[i]) by {
            assert(ab[n + i] == b[i]);
        }
        assert(jb.len() == b.len() + 1);
        assert(wrapped_by(b, job, mid));
        assert forall|i: int| 0 <= i < a.len() implies call_ensures(#[trigger] a[i], (ja[i + 1],), ja[i]) by {
            assert(ab[i] == a[i]);
        }
        assert(ja.len() == a.len() + 1);
        assert(wrapped_by(a, mid, r));
    }
    if exists|mid: J| wrapped_by(b, job, mid) && wrapped_by(a, mid, r) {
        let mid = choose|mid: J| wrapped_by(b, job, mid) && wrapped_by(a, mid, r);
        let jb = choose|js: Seq<J>|
            #![trigger js.len()]
            js.len() == b.len() + 1 && js[b.len() as int] == job && js[0] == mid && forall|i: int|
                0 <= i < b.len() ==> call_ensures(#[trigger] b[i], (js[i + 1],), js[i]);
        let ja = choose|js: Seq<J>|
            #![trigger js.len()]
            js.len() == a.len() + 1 && js[a.len() as int] == mid && js[0] == r && forall|i: int|
                0 <= i < a.len() ==> call_ensures(#[trigger] a[i], (js[i + 1],), js[i]);
        let js = ja.take(n) + jb;
        assert forall|i: int| 0 <= i < ab.len() implies call_ensures(#[trigger] ab[i], (js[i + 1],), js[i]) by {
            if i < n {
                assert(ab[i] == a[i]);
                assert(js[i] == ja[i]);
                if i + 1 < n {
                    assert(js[i + 1] == ja[i + 1]);
                } else {
                    assert(js[i + 1] == jb[0]);
                }
            } else {
                assert(ab[i] == b[i - n]);
                assert(js[i] == jb[i - n]);
                assert(js[i + 1] == jb[i - n + 1]);
            }
        }
        assert(js.len() == ab.len() + 1);
        assert(js[0] == r) by {
            if n == 0 {
                assert(js[0] == jb[0]);
            } else {
                assert(js[0] == ja[0]);
            }
        }
        assert(js[ab.len() as int] == job);
        assert(wrapped_by(ab, job, r));
    }
}

impl<W> Chain<W> {
    /// The chain of `wrappers`, outermost first.
    pub fn new(wrappers: Vec<W>) -> (c: Chain<W>)
        ensures
            c.wrappers() == wrappers@,
    {
        Chain { wrappers }
    }

    /// The wrappers, outermost first.
    pub closed spec fn wrappers(&self) -> Seq<W> {
        self.wrappers@
    }

    /// Wraps `job` in every wrapper of the chain, the first outermost.
    pub fn then<J>(&self, job: J) -> (r: J)
        where W: Fn(J) -> J,
        requires
            forall|i: int, j: J| 0 <= i < self.wrappers().len() ==> #[trigger] call_requires(self.wrappers()[i], (j,)),
        ensures
            wrapped_by(self.wrappers(), job, r),
    {
        let n = self.wrappers.len();
        let mut k = n;
        let mut j = job;
        let ghost mut js: Seq<J> = seq![job];
        while k > 0
            invariant
                n == self.wrappers@.len(),
                self.wrappers() == self.wrappers@,
                k <= n,
                forall|i: int, x: J| 0 <= i < n ==> #[trigger] call_requires(self.wrappers()[i], (x,)),
                js.len() == n - k + 1,
                js[0] == j,
                js[n - k] == job,
                forall|i: int| 0 <= i < n - k ==> call_ensures(#[trigger] self.wrappers@[k + i], (js[i + 1],), js[i]),
            decreases k,
        {
            k = k - 1;
            let w = &self.wrappers[k];
            let next = w(j);
            proof {
                let old_js = js;
                js = seq![next] + old_js;
                assert forall|i: int| 0 <= i < n - k implies call_ensures(#[trigger] self.wrappers@[k + i], (js[i + 1],), js[i]) by {
                    if i > 0 {
                        assert(self.wrappers@[k + i] == self.wrappers@[(k + 1) + (i - 1)]);
                    }
                }
            }
            j = next;
        }
        proof {
            assert(js.len() == n + 1);
            assert forall|i: int| 0 <= i < n implies call_ensures(#[trigger] self.wrappers@[i], (js[i + 1],), js[i]) by {
                assert(self.wrappers@[i] == self.wrappers@[0 + i]);
            }
        }
        j
    }
}

} // verus!
