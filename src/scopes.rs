use vstd::prelude::*;

use crate::text::{chars_of, same_chars};

verus! {

/// A stack of frames of variable names, innermost last.
pub type Frames = Seq<Seq<Seq<char>>>;

/// A name is visible when some frame of the stack holds it.
pub open spec fn visible(v: Frames, n: Seq<char>) -> bool {
    exists|i: int| 0 <= i < v.len() && #[trigger] v[i].contains(n)
}

/// The innermost frame that holds `n`, or -1 when none does.
pub open spec fn innermost(v: Frames, n: Seq<char>) -> int
    decreases v.len(),
{
    if v.len() == 0 {
        -1
    } else if v.last().contains(n) {
        v.len() - 1
    } else {
        innermost(v.drop_last(), n)
    }
}

/// The lexical scopes of a parse: a stack of frames of declared variable
/// names. A frame is opened on entering a block and closed on leaving it.
pub struct Scopes {
    frames: Vec<Vec<String>>,
}

impl View for Scopes {
    type V = Frames;

    closed spec fn view(&self) -> Frames {
        Seq::new(
            self.frames@.len(),
            |i: int| Seq::new(self.frames@[i]@.len(), |j: int| self.frames@[i]@[j]@),
        )
    }
}

impl Scopes {
    /// One empty outermost frame.
    pub fn new() -> (r: Scopes)
        ensures
            r@ == seq![Seq::<Seq<char>>::empty()],
    {
        let mut frames: Vec<Vec<String>> = Vec::new();
        frames.push(Vec::new());
        let r = Scopes { frames };
        assert(r@ =~~= seq![Seq::<Seq<char>>::empty()]);
        r
    }

    pub fn depth(&self) -> (r: usize)
        ensures
            r == self@.len(),
    {
        self.frames.len()
    }

    /// Opens an empty innermost frame.
    pub fn push_scope(&mut self)
        ensures
            final(self)@ == old(self)@.push(Seq::empty()),
    {
        self.frames.push(Vec::new());
        assert(self@ =~~= old(self)@.push(Seq::empty()));
    }

    /// Closes the innermost frame, forgetting its names.
    pub fn pop_scope(&mut self)
        requires
            old(self)@.len() > 0,
        ensures
            final(self)@ == old(self)@.drop_last(),
    {
        self.frames.pop();
        assert(self@ =~= old(self)@.drop_last());
    }

    /// Declares `name` in the innermost frame.
    pub fn declare(&mut self, name: String)
        requires
            old(self)@.len() > 0,
        ensures
            final(self)@ == old(self)@.update(
                old(self)@.len() - 1,
                old(self)@.last().push(name@),
            ),
    {
        let ghost n = name@;
        match self.frames.pop() {
            Some(mut top) => {
                let ghost t = top@;
                top.push(name);
                self.frames.push(top);
                proof {
                    let v = self@;
                    let w = old(self)@.update(old(self)@.len() - 1, old(self)@.last().push(n));
                    assert(v.len() == w.len());
                    assert forall|i: int| 0 <= i < v.len() implies v[i] =~= w[i] by {
                        if i == v.len() - 1 {
                            assert(self.frames@[i]@ == t.push(name));
                        }
                    }
                    assert(v =~= w);
                }
            },
            None => {},
        }
    }

    /// The innermost frame that holds `name`, if any.
    pub fn resolve(&self, name: &str) -> (r: Option<usize>)
        ensures
            match r {
                Some(i) => i as int == innermost(self@, name@),
                None => innermost(self@, name@) == -1,
            },
    {
        let n = chars_of(name);
        let mut i: usize = self.frames.len();
        assert(self@.subrange(0, i as int) =~= self@);
        while i > 0
            invariant
                i <= self.frames.len(),
                n@ == name@,
                innermost(self@, name@) == innermost(self@.subrange(0, i as int), name@),
            decreases i,
        {
            let frame = &self.frames[i - 1];
            let ghost pre = self@.subrange(0, i as int);
            assert(pre.drop_last() =~= self@.subrange(0, i - 1));
            let mut j: usize = 0;
            while j < frame.len()
                invariant
                    j <= frame.len(),
                    0 < i <= self.frames.len(),
                    pre == self@.subrange(0, i as int),
                    innermost(self@, name@) == innermost(pre, name@),
                    frame == self.frames@[i - 1],
                    n@ == name@,
                    forall|k: int| 0 <= k < j ==> frame@[k]@ != name@,
                decreases frame.len() - j,
            {
                let f = chars_of(frame[j].as_str());
                if same_chars(&f, &n) {
                    assert(pre.last() == self@[i - 1]);
                    assert(pre.last()[j as int] == name@);
                    assert(pre.last().contains(name@));
                    return Some(i - 1);
                }
                j = j + 1;
            }
            assert(!pre.last().contains(name@)) by {
                if pre.last().contains(name@) {
                    let k = choose|k: int| 0 <= k < pre.last().len() && pre.last()[k] == name@;
                    assert(frame@[k]@ == name@);
                }
            }
            i = i - 1;
        }
        None
    }

    /// Whether some frame holds `name`.
    pub fn is_visible(&self, name: &str) -> (r: bool)
        ensures
            r == visible(self@, name@),
    {
        let r = self.resolve(name);
        proof {
            lemma_innermost(self@, name@);
        }
        r.is_some()
    }
}

/// The innermost frame holding a name exists exactly when the name is visible,
/// and holds it.
pub proof fn lemma_innermost(v: Frames, n: Seq<char>)
    ensures
        -1 <= innermost(v, n) < v.len(),
        innermost(v, n) >= 0 <==> visible(v, n),
        innermost(v, n) >= 0 ==> v[innermost(v, n)].contains(n),
        forall|i: int| innermost(v, n) < i < v.len() ==> !(#[trigger] v[i]).contains(n),
    decreases v.len(),
{
    if v.len() > 0 {
        lemma_innermost(v.drop_last(), n);
        if visible(v, n) && !v.last().contains(n) {
            let i = choose|i: int| 0 <= i < v.len() && #[trigger] v[i].contains(n);
            assert(v.drop_last()[i].contains(n));
        }
        if visible(v.drop_last(), n) {
            let i = choose|i: int| 0 <= i < v.drop_last().len() && #[trigger] v.drop_last()[i].contains(n);
            assert(v[i].contains(n));
        }
        assert forall|i: int| innermost(v, n) < i < v.len() implies !(#[trigger] v[i]).contains(n) by {
            if i < v.len() - 1 {
                assert(v[i] == v.drop_last()[i]);
            }
        }
    }
}

/// A name declared in a block is visible in that block and in every block
/// nested in it, whatever those declare; once the block closes, the name is
/// visible exactly when it was before the block opened.
pub proof fn law_block_scoping(v: Frames, f: Seq<Seq<char>>, n: Seq<char>, inner: Frames)
    ensures
        visible(v.push(f.push(n)) + inner, n),
        visible(v.push(f.push(n)).drop_last(), n) == visible(v, n),
{
    let w = v.push(f.push(n)) + inner;
    assert(w[v.len() as int] == f.push(n));
    assert(f.push(n)[f.len() as int] == n);
    assert(w[v.len() as int].contains(n));
    assert(v.push(f.push(n)).drop_last() =~= v);
}

/// A name declared in an inner block shadows the same name of an outer block:
/// inside it, and in nested blocks that do not declare it again, the name
/// resolves to the inner declaration.
pub proof fn law_shadowing(v: Frames, f: Seq<Seq<char>>, n: Seq<char>, inner: Frames)
    requires
        forall|i: int| 0 <= i < inner.len() ==> !(#[trigger] inner[i]).contains(n),
    ensures
        innermost(v.push(f.push(n)) + inner, n) == v.len(),
    decreases inner.len(),
{
    let w = v.push(f.push(n)) + inner;
    if inner.len() == 0 {
        assert(w =~= v.push(f.push(n)));
        assert(f.push(n)[f.len() as int] == n);
    } else {
        assert(w.drop_last() =~= v.push(f.push(n)) + inner.drop_last());
        assert(w.last() == inner[inner.len() - 1]);
        assert forall|i: int| 0 <= i < inner.drop_last().len() implies !(
        #[trigger] inner.drop_last()[i]).contains(n) by {
            assert(inner.drop_last()[i] == inner[i]);
        }
        law_shadowing(v, f, n, inner.drop_last());
    }
}

} // verus!
