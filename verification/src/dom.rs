//! Building DOM nodes: the builder, its callbacks, and the naming of the
//! classes that stylesheets create.
use vstd::prelude::*;
use vstd::string::StringExecFns;
use crate::callbacks::{Callbacks, FnDiscard, InsertCallback, RemoveCallback};
use crate::signals::signal_vec::Async;
use crate::traits::{gives_none, MultiStr};

verus! {

/// A value together with a function that borrows something out of it.
#[verifier::reject_recursive_types(A)]
#[verifier::reject_recursive_types(B)]
pub struct RefFn<A, B: ?Sized, C> where C: Fn(&A) -> &B {
    value: A,
    callback: C,
}

impl<A, B: ?Sized, C> RefFn<A, B, C> where C: Fn(&A) -> &B {
    pub closed spec fn value(&self) -> A {
        self.value
    }

    pub closed spec fn callback(&self) -> C {
        self.callback
    }

    pub fn new(value: A, callback: C) -> (r: Self)
        ensures
            r.value() == value,
            r.callback() == callback,
    {
        RefFn { value, callback }
    }

    /// What the function borrows out of the value.
    pub fn call_ref(&self) -> (r: &B)
        requires
            self.callback().requires((&self.value(),)),
        ensures
            self.callback().ensures((&self.value(),), r),
    {
        (self.callback)(&self.value)
    }
}


/// The highest z-index a style can hold (the largest 32-bit signed integer).
pub const HIGHEST_ZINDEX: &'static str = "2147483647";

/// How an event listener is attached: whether it sees events that bubble up
/// from descendants, and whether it may prevent the default action.
#[derive(Debug, Clone, Copy, Hash, PartialEq, Eq, Structural)]
pub struct EventOptions {
    pub bubbles: bool,
    pub preventable: bool,
}

impl EventOptions {
    /// Listens to bubbling events, and does not prevent the default action.
    pub fn bubbles() -> (r: Self)
        ensures
            r.bubbles,
            !r.preventable,
    {
        EventOptions { bubbles: true, preventable: false }
    }

    /// Listens only to events on the node itself, and may prevent the default
    /// action.
    pub fn preventable() -> (r: Self)
        ensures
            !r.bubbles,
            r.preventable,
    {
        EventOptions { bubbles: false, preventable: true }
    }
}

impl Default for EventOptions {
    /// Neither bubbling nor preventable.
    fn default() -> (r: Self)
        ensures
            !r.bubbles,
            !r.preventable,
    {
        EventOptions { bubbles: false, preventable: false }
    }
}

/// A builder of one DOM node: the node, and the callbacks it collects.
pub struct DomBuilder<A> {
    element: A,
    callbacks: Callbacks,
}

impl<A> DomBuilder<A> {
    pub closed spec fn element(&self) -> A {
        self.element
    }

    pub closed spec fn callbacks(&self) -> Callbacks {
        self.callbacks
    }

    /// A builder of `value`, with no callbacks yet.
    pub fn new(value: A) -> (r: Self)
        ensures
            r.element() == value,
            r.callbacks().inserts() == 0,
            r.callbacks().removes() == 0,
            r.callbacks().triggers_remove(),
    {
        DomBuilder { element: value, callbacks: Callbacks::new() }
    }

    /// Moves the callbacks that `shadow` collected onto this builder.
    pub fn __internal_transfer_callbacks<B>(self, shadow: DomBuilder<B>) -> (r: Self)
        ensures
            r.element() == self.element(),
            r.callbacks().inserts() == self.callbacks().inserts() + shadow.callbacks().inserts(),
            r.callbacks().removes() == self.callbacks().removes() + shadow.callbacks().removes(),
            r.callbacks().triggers_remove() == self.callbacks().triggers_remove(),
    {
        let mut this = self;
        let mut shadow = shadow;
        this.callbacks.transfer(&mut shadow.callbacks);
        this
    }

    /// The result of `f` on this builder.
    pub fn apply<F>(self, f: F) -> (r: Self)
        where F: FnOnce(Self) -> Self,
        requires
            f.requires((self,)),
        ensures
            f.ensures((self,), r),
    {
        f(self)
    }

    /// The result of `f` on this builder where `test` holds, the builder as it
    /// is otherwise.
    pub fn apply_if<F>(self, test: bool, f: F) -> (r: Self)
        where F: FnOnce(Self) -> Self,
        requires
            test ==> f.requires((self,)),
        ensures
            test ==> f.ensures((self,), r),
            !test ==> r == self,
    {
        if test {
            f(self)
        } else {
            self
        }
    }

    /// The node, to read.
    pub fn element_ref(&self) -> (r: &A)
        ensures
            *r == self.element(),
    {
        &self.element
    }

    /// The callbacks, to add to.
    pub fn callbacks_mut(&mut self) -> (r: &mut Callbacks)
        ensures
            *r == old(self).callbacks(),
            final(self).element() == old(self).element(),
            final(self).callbacks() == *final(r),
    {
        &mut self.callbacks
    }

    /// The node and its callbacks.
    pub fn into_parts(self) -> (r: (A, Callbacks))
        ensures
            r.0 == self.element(),
            r.1 == self.callbacks(),
    {
        (self.element, self.callbacks)
    }
}

impl<A: Clone> DomBuilder<A> {
    /// A copy of the node.
    pub fn __internal_element(&self) -> (r: A)
        ensures
            cloned(self.element(), r),
    {
        self.element.clone()
    }

    /// The result of `f` on this builder and a copy of its node.
    pub fn with_element<B, F>(self, f: F) -> (r: B)
        where F: FnOnce(Self, A) -> B,
        requires
            forall|e: A| #[trigger] f.requires((self, e)),
        ensures
            exists|e: A| cloned(self.element(), e) && #[trigger] f.ensures((self, e), r),
    {
        let element = self.element.clone();
        f(self, element)
    }

    /// Runs `f` on a copy of the node now, and returns the builder unchanged.
    pub fn before_inserted<F>(self, f: F) -> (r: Self)
        where F: FnOnce(A),
        requires
            forall|e: A| #[trigger] f.requires((e,)),
        ensures
            r == self,
            exists|e: A| cloned(self.element(), e) && #[trigger] f.ensures((e,), ()),
    {
        let element = self.element.clone();
        f(element);
        self
    }
}

impl<A: Clone + 'static> DomBuilder<A> {
    /// Runs `f` on a copy of the node once the node is inserted: the builder
    /// gets one more insertion callback, which calls `f` with a copy of the
    /// node and registers no removal callback.
    pub fn after_inserted<F>(self, f: F) -> (r: Self)
        where F: FnOnce(A) + 'static,
        requires
            forall|e: A| #[trigger] f.requires((e,)),
        ensures
            r.element() == self.element(),
            r.callbacks().inserts() == self.callbacks().inserts() + 1,
            r.callbacks().insert_callbacks().drop_last() == self.callbacks().insert_callbacks(),
            r.callbacks().remove_callbacks() == self.callbacks().remove_callbacks(),
            r.callbacks().triggers_remove() == self.callbacks().triggers_remove(),
            forall|v: Vec<RemoveCallback>, w: Vec<RemoveCallback>|
                #[trigger] r.callbacks().insert_callbacks().last().ran(v, w) ==> {
                    &&& w == v
                    &&& exists|e: A| cloned(self.element(), e) && #[trigger] f.ensures((e,), ())
                },
    {
        let mut this = self;
        let element = this.element.clone();
        let ghost copy = element;
        let call = move |after_remove: Vec<RemoveCallback>| -> (w: Vec<RemoveCallback>)
            requires
                f.requires((element,)),
            ensures
                w == after_remove,
                f.ensures((copy,), ()),
        {
            f(element);
            after_remove
        };
        let callback = InsertCallback::from_fn(call);
        proof {
            assert forall|v: Vec<RemoveCallback>, w: Vec<RemoveCallback>| #[trigger] callback.ran(v, w) implies {
                &&& w == v
                &&& exists|e: A| cloned(self.element(), e) && #[trigger] f.ensures((e,), ())
            } by {
                assert(call.ensures((v,), w));
                assert(cloned(self.element(), copy) && f.ensures((copy,), ()));
            }
        }
        this.callbacks.after_insert(callback);
        proof {
            assert(this.callbacks.insert_callbacks().drop_last() =~= self.callbacks().insert_callbacks());
        }
        this
    }

    /// Runs `f` on a copy of the node once the node is removed: the builder
    /// gets one more removal callback, which calls `f` with a copy of the node.
    pub fn after_removed<F>(self, f: F) -> (r: Self)
        where F: FnOnce(A) + 'static,
        requires
            forall|e: A| #[trigger] f.requires((e,)),
        ensures
            r.element() == self.element(),
            r.callbacks().insert_callbacks() == self.callbacks().insert_callbacks(),
            r.callbacks().removes() == self.callbacks().removes() + 1,
            r.callbacks().remove_callbacks().drop_last() == self.callbacks().remove_callbacks(),
            r.callbacks().triggers_remove() == self.callbacks().triggers_remove(),
            r.callbacks().remove_callbacks().last().ran() ==>
                exists|e: A| cloned(self.element(), e) && #[trigger] f.ensures((e,), ()),
    {
        let mut this = self;
        let element = this.element.clone();
        let ghost copy = element;
        let call = move || -> (u: ())
            requires
                f.requires((element,)),
            ensures
                f.ensures((copy,), ()),
        {
            f(element)
        };
        let callback = RemoveCallback::from_fn(call);
        proof {
            if callback.ran() {
                assert(call.ensures((), ()));
                assert(cloned(self.element(), copy) && f.ensures((copy,), ()));
            }
        }
        this.callbacks.after_remove(callback);
        proof {
            assert(this.callbacks.remove_callbacks().drop_last() =~= self.callbacks().remove_callbacks());
        }
        this
    }
}


/// The character of the decimal digit `d`.
pub open spec fn digit_char(d: nat) -> char {
    (48 + d) as char
}

/// The decimal digits of `n`, most significant first, without leading zeros.
pub open spec fn decimal(n: nat) -> Seq<char>
    decreases n,
{
    if n < 10 {
        seq![digit_char(n)]
    } else {
        decimal(n / 10).push(digit_char(n % 10))
    }
}

/// The name of the class with number `id`.
pub open spec fn class_name(id: nat) -> Seq<char> {
    seq!['_', '_', 'c', 'l', 'a', 's', 's', '_'] + decimal(id) + seq!['_', '_']
}

fn digit_str(d: u32) -> (r: &'static str)
    requires
        d < 10,
    ensures
        r@ == seq![digit_char(d as nat)],
{
    if d == 0 {
        proof { reveal_strlit("0"); }
        "0"
    } else if d == 1 {
        proof { reveal_strlit("1"); }
        "1"
    } else if d == 2 {
        proof { reveal_strlit("2"); }
        "2"
    } else if d == 3 {
        proof { reveal_strlit("3"); }
        "3"
    } else if d == 4 {
        proof { reveal_strlit("4"); }
        "4"
    } else if d == 5 {
        proof { reveal_strlit("5"); }
        "5"
    } else if d == 6 {
        proof { reveal_strlit("6"); }
        "6"
    } else if d == 7 {
        proof { reveal_strlit("7"); }
        "7"
    } else if d == 8 {
        proof { reveal_strlit("8"); }
        "8"
    } else {
        proof { reveal_strlit("9"); }
        "9"
    }
}

proof fn lemma_decimal_nonempty(n: nat)
    ensures
        decimal(n).len() >= 1,
        n >= 10 ==> decimal(n).len() >= 2,
    decreases n,
{
    if n >= 10 {
        lemma_decimal_nonempty(n / 10);
    }
}

proof fn lemma_digit_char_injective(a: nat, b: nat)
    requires
        a < 10,
        b < 10,
        digit_char(a) == digit_char(b),
    ensures
        a == b,
{
    assert(digit_char(a) as int == 48 + a);
    assert(digit_char(b) as int == 48 + b);
}

/// Different numbers have different decimal digits.
proof fn lemma_decimal_injective(a: nat, b: nat)
    requires
        decimal(a) == decimal(b),
    ensures
        a == b,
    decreases a,
{
    lemma_decimal_nonempty(a);
    lemma_decimal_nonempty(b);
    if a < 10 && b < 10 {
        assert(decimal(a)[0] == digit_char(a));
        assert(decimal(b)[0] == digit_char(b));
        lemma_digit_char_injective(a, b);
    } else if a >= 10 && b >= 10 {
        lemma_decimal_nonempty(a / 10);
        lemma_decimal_nonempty(b / 10);
        assert(decimal(a).last() == digit_char(a % 10));
        assert(decimal(b).last() == digit_char(b % 10));
        lemma_digit_char_injective(a % 10, b % 10);
        assert(decimal(a).drop_last() =~= decimal(a / 10));
        assert(decimal(b).drop_last() =~= decimal(b / 10));
        lemma_decimal_injective(a / 10, b / 10);
    } else {
        assert(decimal(a).len() != decimal(b).len());
    }
}

/// Class names are unique: different ids give different names.
pub proof fn lemma_class_names_distinct(a: nat, b: nat)
    requires
        a != b,
    ensures
        class_name(a) != class_name(b),
{
    if class_name(a) == class_name(b) {
        let (da, db) = (decimal(a), decimal(b));
        assert(class_name(a).len() == 10 + da.len());
        assert(class_name(b).len() == 10 + db.len());
        assert(class_name(a).subrange(8, 8 + da.len() as int) =~= da);
        assert(class_name(b).subrange(8, 8 + db.len() as int) =~= db);
        lemma_decimal_injective(a, b);
    }
}

/// The decimal digits of `n`.
fn decimal_string(n: u32) -> (r: String)
    ensures
        r@ == decimal(n as nat),
    decreases n,
{
    if n < 10 {
        String::from_str(digit_str(n))
    } else {
        let mut s = decimal_string(n / 10);
        s.append(digit_str(n % 10));
        s
    }
}

/// A fresh class name: the number in `next_id` names it, and `next_id` moves
/// on to the next number (wrapping around after the largest).
pub fn make_class_id(next_id: &mut u32) -> (r: String)
    ensures
        r@ == class_name(*old(next_id) as nat),
        *final(next_id) == if *old(next_id) == u32::MAX { 0 } else { (*old(next_id) + 1) as u32 },
{
    let id = *next_id;
    *next_id = if id == u32::MAX { 0 } else { id + 1 };
    proof { reveal_strlit("__class_"); reveal_strlit("__"); }
    let mut s = String::from_str("__class_");
    let digits = decimal_string(id);
    s.append(digits.as_str());
    s.append("__");
    s
}

/// The selectors of a class with pseudo-classes: `.` and the class name,
/// followed by each pseudo-class of `pseudos`.
pub struct Pseudo<'a> {
    class_name: &'a str,
    pseudos: Vec<&'a str>,
}

impl<'a> Pseudo<'a> {
    pub closed spec fn class_name(&self) -> Seq<char> {
        self.class_name@
    }

    pub closed spec fn pseudos(&self) -> Seq<Seq<char>> {
        self.pseudos@.map_values(|p: &str| p@)
    }

    pub fn new(class_name: &'a str, pseudos: Vec<&'a str>) -> (r: Self)
        ensures
            r.class_name() == class_name@,
            r.pseudos() == pseudos@.map_values(|p: &str| p@),
    {
        Pseudo { class_name, pseudos }
    }

    /// The selector for the pseudo-class number `i`.
    pub fn selector(&self, i: usize) -> (r: String)
        requires
            i < self.pseudos().len(),
        ensures
            r@ == seq!['.'] + self.class_name() + self.pseudos()[i as int],
    {
        proof { reveal_strlit("."); }
        let mut s = String::from_str(".");
        s.append(self.class_name);
        s.append(self.pseudos[i]);
        s
    }

    /// All selectors, in the order of the pseudo-classes.
    pub fn selectors(&self) -> (r: Vec<String>)
        ensures
            r@.len() == self.pseudos().len(),
            forall|i: int| 0 <= i < r@.len() ==> #[trigger] r@[i]@ == seq!['.'] + self.class_name() + self.pseudos()[i],
    {
        let mut r: Vec<String> = Vec::new();
        let mut i: usize = 0;
        while i < self.pseudos.len()
            invariant
                i <= self.pseudos@.len(),
                r@.len() == i,
                forall|j: int| 0 <= j < i ==> #[trigger] r@[j]@ == seq!['.'] + self.class_name() + self.pseudos()[j],
            decreases self.pseudos@.len() - i,
        {
            r.push(self.selector(i));
            i = i + 1;
        }
        r
    }
}

impl<'a> MultiStr for Pseudo<'a> {
    open spec fn texts(&self) -> Seq<Seq<char>> {
        Seq::new(self.pseudos().len(), |i: int| seq!['.'] + self.class_name() + self.pseudos()[i])
    }

    /// The first `Some` that `f` gives for the selectors in order.
    fn find_map<B, F>(&self, f: F) -> (r: Option<B>)
        where F: Fn(&str) -> Option<B>,
    {
        let mut i: usize = 0;
        while i < self.pseudos.len()
            invariant
                forall|s: &str| #[trigger] f.requires((s,)),
                i <= self.pseudos@.len(),
                forall|j: int| 0 <= j < i ==> #[trigger] gives_none(f, self.texts()[j]),
            decreases self.pseudos@.len() - i,
        {
            let selector = self.selector(i);
            let text = selector.as_str();
            let r = f(text);
            proof {
                assert(text@ == self.texts()[i as int]);
                if r is None {
                    assert(f.ensures((text,), None::<B>));
                    assert(gives_none(f, self.texts()[i as int]));
                }
            }
            if r.is_some() {
                return r;
            }
            i = i + 1;
        }
        None
    }
}

/// Whether an optional property (an attribute, a style) that follows a
/// signal is currently set on the node.
pub struct OptionSetter {
    is_set: bool,
}

impl OptionSetter {
    pub closed spec fn is_set(&self) -> bool {
        self.is_set
    }

    pub fn new() -> (r: Self)
        ensures
            !r.is_set(),
    {
        OptionSetter { is_set: false }
    }

    /// Takes the signal's next value (whether it holds a value) and answers
    /// whether the node has to be updated: always for a value, for no value
    /// only where one was set before.
    pub fn step(&mut self, present: bool) -> (update: bool)
        ensures
            final(self).is_set() == present,
            update == (present || old(self).is_set()),
    {
        if present {
            self.is_set = true;
            true
        } else if self.is_set {
            self.is_set = false;
            true
        } else {
            false
        }
    }
}

/// Whether a class that follows a signal is currently on the node.
pub struct ClassToggle {
    is_set: bool,
}

impl ClassToggle {
    pub closed spec fn is_set(&self) -> bool {
        self.is_set
    }

    pub fn new() -> (r: Self)
        ensures
            !r.is_set(),
    {
        ClassToggle { is_set: false }
    }

    /// Takes the signal's next value and answers what to do: `Some(true)` to
    /// add the class, `Some(false)` to remove it, `None` where it already
    /// stands as the value asks.
    pub fn step(&mut self, value: bool) -> (r: Option<bool>)
        ensures
            final(self).is_set() == value,
            r == if value == old(self).is_set() { None } else { Some(value) },
    {
        if value {
            if !self.is_set {
                self.is_set = true;
                Some(true)
            } else {
                None
            }
        } else {
            if self.is_set {
                self.is_set = false;
                Some(false)
            } else {
                None
            }
        }
    }
}

/// Where the watch for the page's load stands.
#[derive(Debug, Clone, Copy, PartialEq, Eq, Structural)]
pub enum LoadStage {
    Initial,
    Pending,
    Done,
}

/// The decisions of the signal that says whether the page has loaded: its
/// first answer is whether the page is complete; where it is not, it listens
/// for the load event and later answers `true` once; after that it ends.
pub struct LoadWatch {
    stage: LoadStage,
}

impl LoadWatch {
    /// Where the watch stands.
    pub closed spec fn stage(&self) -> LoadStage {
        self.stage
    }

    /// A watch that has not looked at the page yet.
    pub fn new() -> (r: Self)
        ensures
            r.stage() == LoadStage::Initial,
    {
        LoadWatch { stage: LoadStage::Initial }
    }

    /// Where the watch stands.
    pub fn current(&self) -> (r: LoadStage)
        ensures
            r == self.stage(),
    {
        self.stage
    }

    /// The first poll, with whether the page is complete: answers that,
    /// and says whether to start listening for the load event (where it is
    /// not complete).
    pub fn start(&mut self, complete: bool) -> (r: (bool, Async<Option<bool>>))
        requires
            old(self).stage() == LoadStage::Initial,
        ensures
            r.0 == !complete,
            r.1 == Async::Ready(Some(complete)),
            final(self).stage() == if complete { LoadStage::Done } else { LoadStage::Pending },
    {
        if complete {
            self.stage = LoadStage::Done;
            (false, Async::Ready(Some(true)))
        } else {
            self.stage = LoadStage::Pending;
            (true, Async::Ready(Some(false)))
        }
    }

    /// A poll while listening, with what the load channel answered: passes
    /// it on, and ends the watch once it answers `true`.
    pub fn receive(&mut self, answer: Async<Option<bool>>) -> (r: Async<Option<bool>>)
        requires
            old(self).stage() == LoadStage::Pending,
        ensures
            r == answer,
            final(self).stage() == if answer == Async::Ready(Some(true)) { LoadStage::Done } else { LoadStage::Pending },
    {
        match answer {
            Async::Ready(Some(true)) => {
                self.stage = LoadStage::Done;
            },
            _ => {},
        }
        answer
    }

    /// A poll after the page has loaded: the signal has ended.
    pub fn finished(&self) -> (r: Async<Option<bool>>)
        requires
            self.stage() == LoadStage::Done,
        ensures
            r == Async::<Option<bool>>::Ready(None),
    {
        Async::Ready(None)
    }
}

/// The order in which a style or selector is tried: every name with every
/// value, name after name, until one pair takes effect.
pub struct Attempts {
    names: usize,
    values: usize,
    name: usize,
    value: usize,
    found: Option<(usize, usize)>,
}

impl Attempts {
    pub closed spec fn names(&self) -> usize {
        self.names
    }

    pub closed spec fn values(&self) -> usize {
        self.values
    }

    /// The pair to try next, where the search goes on.
    pub closed spec fn at(&self) -> (usize, usize) {
        (self.name, self.value)
    }

    /// The pair that took effect, once one did.
    pub closed spec fn found(&self) -> Option<(usize, usize)> {
        self.found
    }

    /// The search goes on: nothing took effect yet and pairs are left.
    pub open spec fn going(&self) -> bool {
        &&& self.found() is None
        &&& self.at().0 < self.names()
        &&& self.at().1 < self.values()
    }

    /// A search over `names` names and `values` values, from the first pair.
    pub fn new(names: usize, values: usize) -> (r: Self)
        ensures
            r.names() == names,
            r.values() == values,
            r.at() == (0usize, 0usize),
            r.found() is None,
    {
        Attempts { names, values, name: 0, value: 0, found: None }
    }

    /// The pair to try next: `None` once one took effect or all were tried.
    pub fn next(&self) -> (r: Option<(usize, usize)>)
        ensures
            r == if self.going() { Some(self.at()) } else { None },
    {
        if self.found.is_none() && self.name < self.names && self.value < self.values {
            Some((self.name, self.value))
        } else {
            None
        }
    }

    /// Records whether the pair just tried took effect: the search stops
    /// there, or moves to the next value, or to the first value of the next
    /// name.
    pub fn record(&mut self, took_effect: bool)
        requires
            old(self).going(),
        ensures
            final(self).names() == old(self).names(),
            final(self).values() == old(self).values(),
            took_effect ==> final(self).found() == Some(old(self).at()) && final(self).at() == old(self).at(),
            !took_effect ==> final(self).found() is None,
            !took_effect ==> final(self).at() == if old(self).at().1 + 1 < old(self).values() {
                (old(self).at().0, (old(self).at().1 + 1) as usize)
            } else {
                ((old(self).at().0 + 1) as usize, 0usize)
            },
    {
        if took_effect {
            self.found = Some((self.name, self.value));
        } else if self.value + 1 < self.values {
            self.value = self.value + 1;
        } else {
            self.value = 0;
            self.name = self.name + 1;
        }
    }

    /// The pair that took effect, if any did.
    pub fn result(&self) -> (r: Option<(usize, usize)>)
        ensures
            r == self.found(),
    {
        self.found
    }
}

} // verus!
