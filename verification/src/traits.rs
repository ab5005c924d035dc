//! The traits that the builder's methods take their arguments through: one
//! string or several, optionally, and functions that change a builder.
use vstd::prelude::*;

verus! {

/// Something that reads as a string.
pub trait AsStr {
    /// The characters it reads as.
    spec fn text(&self) -> Seq<char>;

    fn as_str(&self) -> (r: &str)
        ensures
            r@ == self.text(),
    ;

    /// The result of `f` on the string.
    fn with_str<A, F>(&self, f: F) -> (r: A)
        where F: FnOnce(&str) -> A,
        requires
            forall|s: &str| s@ == self.text() ==> #[trigger] f.requires((s,)),
        ensures
            exists|s: &str| s@ == self.text() && #[trigger] f.ensures((s,), r),
    {
        let s = self.as_str();
        f(s)
    }
}

impl<'a, A: AsStr> AsStr for &'a A {
    open spec fn text(&self) -> Seq<char> {
        (**self).text()
    }

    fn as_str(&self) -> (r: &str) {
        (**self).as_str()
    }
}

impl AsStr for String {
    open spec fn text(&self) -> Seq<char> {
        self@
    }

    fn as_str(&self) -> (r: &str) {
        self.as_str()
    }
}

impl AsStr for str {
    open spec fn text(&self) -> Seq<char> {
        self@
    }

    fn as_str(&self) -> (r: &str) {
        self
    }
}

impl<'a> AsStr for &'a str {
    open spec fn text(&self) -> Seq<char> {
        (*self)@
    }

    fn as_str(&self) -> (r: &str) {
        *self
    }
}

/// `f` may give `None` for a string that reads `text`.
pub open spec fn gives_none<A, F: Fn(&str) -> Option<A>>(f: F, text: Seq<char>) -> bool {
    exists|s: &str| s@ == text && #[trigger] f.ensures((s,), None::<A>)
}

/// One string or several, tried in order.
pub trait MultiStr {
    /// The strings, in order.
    spec fn texts(&self) -> Seq<Seq<char>>;

    /// The first `Some` that `f` gives for the strings in order, `None`
    /// where it gives none.
    fn find_map<B, F>(&self, f: F) -> (r: Option<B>)
        where F: Fn(&str) -> Option<B>,
        requires
            forall|s: &str| #[trigger] f.requires((s,)),
        ensures
            r is Some ==> exists|i: int, s: &str|
                #![trigger self.texts()[i], f.ensures((s,), r)]
                0 <= i < self.texts().len() && s@ == self.texts()[i] && f.ensures((s,), r)
                    && forall|j: int| 0 <= j < i ==> #[trigger] gives_none(f, self.texts()[j]),
            r is None ==> forall|j: int| 0 <= j < self.texts().len() ==> #[trigger] gives_none(f, self.texts()[j]),
    ;

    /// Calls `f` on every string, in order.
    fn each<F>(&self, f: F)
        where F: Fn(&str),
        requires
            forall|s: &str| #[trigger] f.requires((s,)),
    {
        let _ = self.find_map(|x: &str| -> (o: Option<()>) requires f.requires((x,)) ensures o is None { f(x); None });
    }
}

impl<A: AsStr> MultiStr for A {
    open spec fn texts(&self) -> Seq<Seq<char>> {
        seq![self.text()]
    }

    fn find_map<B, F>(&self, f: F) -> (r: Option<B>)
        where F: Fn(&str) -> Option<B>,
    {
        let r = self.with_str(f);
        proof {
            let s = choose|s: &str| s@ == self.text() && f.ensures((s,), r);
            assert(s@ == self.texts()[0]);
            if r is None {
                assert(f.ensures((s,), None::<B>));
                assert(gives_none(f, self.texts()[0]));
            }
        }
        r
    }
}

impl<A: AsStr, const N: usize> MultiStr for [A; N] {
    open spec fn texts(&self) -> Seq<Seq<char>> {
        self@.map_values(|a: A| a.text())
    }

    fn find_map<B, F>(&self, f: F) -> (r: Option<B>)
        where F: Fn(&str) -> Option<B>,
    {
        let mut i: usize = 0;
        while i < N
            invariant
                forall|s: &str| #[trigger] f.requires((s,)),
                i <= N,
                self@.len() == N,
                forall|j: int| 0 <= j < i ==> #[trigger] gives_none(f, self.texts()[j]),
            decreases N - i,
        {
            let r = self[i].with_str(|x: &str| -> (o: Option<B>) requires f.requires((x,)) ensures f.ensures((x,), o) { f(x) });
            proof {
                let s = choose|s: &str| s@ == self@[i as int].text() && f.ensures((s,), r);
                assert(s@ == self.texts()[i as int]);
                if r is None {
                    assert(f.ensures((s,), None::<B>));
                    assert(gives_none(f, self.texts()[i as int]));
                }
            }
            if r.is_some() {
                return r;
            }
            i = i + 1;
        }
        None
    }
}

/// A string argument that may be absent.
pub trait OptionStr {
    type Output;

    fn into_option(self) -> Option<Self::Output>;
}

impl<A: MultiStr> OptionStr for A {
    type Output = A;

    /// Present.
    fn into_option(self) -> (r: Option<A>)
        ensures
            r == Some(self),
    {
        Some(self)
    }
}

impl<A: MultiStr> OptionStr for Option<A> {
    type Output = A;

    /// Present where it is `Some`.
    fn into_option(self) -> (r: Option<A>)
        ensures
            r == self,
    {
        self
    }
}

/// Something that changes a builder.
pub trait Mixin<A> {
    /// It may be applied to `builder`.
    spec fn applies_to(&self, builder: A) -> bool;

    /// `r` is what it may make of `builder`.
    spec fn makes(&self, builder: A, r: A) -> bool;

    fn apply(self, builder: A) -> (r: A)
        requires
            self.applies_to(builder),
        ensures
            self.makes(builder, r),
    ;
}

impl<A, F: FnOnce(A) -> A> Mixin<A> for F {
    open spec fn applies_to(&self, builder: A) -> bool {
        self.requires((builder,))
    }

    open spec fn makes(&self, builder: A, r: A) -> bool {
        self.ensures((builder,), r)
    }

    /// The result of the function on `builder`.
    fn apply(self, builder: A) -> (r: A) {
        self(builder)
    }
}

} // verus!
