//! The three shift registers of Trivium and the taps of its steps.
use crate::trivium::static_deque::StaticDeque;
use vstd::prelude::*;

verus! {

/// The elements of one register that a step reads, by the names that the
/// step gives them.
pub struct RegisterTaps<'a, T> {
    /// The two elements whose sum goes into the output.
    pub sum: (&'a T, &'a T),
    /// The two elements whose conjunction goes into the next register.
    pub product: (&'a T, &'a T),
    /// The element that is added to what comes from the register before.
    pub feedback: &'a T,
}

/// The three shift registers of Trivium, of 93, 84 and 111 bits. In each,
/// the bit at index zero is the one that came in last.
pub struct TriviumRegisters<T> {
    a: StaticDeque<93, T>,
    b: StaticDeque<84, T>,
    c: StaticDeque<111, T>,
}

/// The content of a register at the start: `head`, the oldest first, and
/// then `tail`, so that the last element of `tail` is the youngest.
pub open spec fn is_loaded_with<T: Clone>(register: Seq<T>, head: Seq<T>, tail: Seq<T>) -> bool {
    &&& register.len() == head.len() + tail.len()
    &&& forall|i: int|
        0 <= i < tail.len() ==> cloned(tail[i], #[trigger] register[tail.len() - 1 - i])
    &&& forall|i: int|
        0 <= i < head.len() ==> cloned(head[i], #[trigger] register[register.len() - 1 - i])
}

/// A register after the elements of `values` are pushed into it one after
/// the other, the first of them first.
pub open spec fn after_pushes<T>(register: Seq<T>, values: Seq<T>) -> Seq<T>
    decreases values.len(),
{
    if values.len() == 0 {
        register
    } else {
        seq![values.last()] + after_pushes(register, values.drop_last()).drop_last()
    }
}

/// Pushes move the elements of a register towards its old end and change
/// nothing else: what stands at `index` after some pushes stood as many
/// places before. So the elements that a step will read some steps from now
/// are in the register already, that many places before its taps.
pub proof fn lemma_look_ahead<T>(register: Seq<T>, values: Seq<T>, index: int)
    requires
        values.len() <= index < register.len(),
    ensures
        after_pushes(register, values).len() == register.len(),
        after_pushes(register, values)[index] == register[index - values.len()],
    decreases values.len(),
{
    if values.len() > 0 {
        lemma_look_ahead(register, values.drop_last(), index - 1);
    }
}

/// Puts `count` copies of `filler` at the end of `arr`.
fn push_copies<T: Clone>(arr: &mut Vec<T>, filler: &T, count: usize)
    ensures
        final(arr)@.len() == old(arr)@.len() + count,
        forall|k: int| 0 <= k < old(arr)@.len() ==> #[trigger] final(arr)@[k] == old(arr)@[k],
        forall|k: int| 0 <= k < count ==> cloned(*filler, #[trigger] final(arr)@[old(arr)@.len() + k]),
{
    let ghost before = arr@;
    let mut i: usize = 0;
    while i < count
        invariant
            i <= count,
            arr@.len() == before.len() + i,
            forall|k: int| 0 <= k < before.len() ==> #[trigger] arr@[k] == before[k],
            forall|k: int| 0 <= k < i ==> cloned(*filler, #[trigger] arr@[before.len() + k]),
        decreases count - i,
    {
        arr.push(filler.clone());
        i += 1;
    }
}

/// Puts a copy of each element of `source`, in order, at the end of `arr`.
fn push_copies_of<T: Clone>(arr: &mut Vec<T>, source: &Vec<T>)
    ensures
        final(arr)@.len() == old(arr)@.len() + source@.len(),
        forall|k: int| 0 <= k < old(arr)@.len() ==> #[trigger] final(arr)@[k] == old(arr)@[k],
        forall|k: int|
            0 <= k < source@.len() ==> cloned(
                source@[k],
                #[trigger] final(arr)@[old(arr)@.len() + k],
            ),
{
    let ghost before = arr@;
    let mut i: usize = 0;
    while i < source.len()
        invariant
            i <= source@.len(),
            arr@.len() == before.len() + i,
            forall|k: int| 0 <= k < before.len() ==> #[trigger] arr@[k] == before[k],
            forall|k: int| 0 <= k < i ==> cloned(source@[k], #[trigger] arr@[before.len() + k]),
        decreases source@.len() - i,
    {
        arr.push(source[i].clone());
        i += 1;
    }
}

/// The register of `N` elements that holds `arr`, the oldest first, where
/// `arr` is copies of `head` and then copies of `tail`.
fn register_of<const N: usize, T: Clone>(
    arr: Vec<T>,
    Ghost(head): Ghost<Seq<T>>,
    Ghost(tail): Ghost<Seq<T>>,
) -> (register: StaticDeque<N, T>)
    requires
        N >= 1,
        arr@.len() == N,
        N == head.len() + tail.len(),
        forall|k: int| 0 <= k < head.len() ==> cloned(head[k], #[trigger] arr@[k]),
        forall|k: int| 0 <= k < tail.len() ==> cloned(tail[k], #[trigger] arr@[head.len() + k]),
    ensures
        register.wf(),
        is_loaded_with(register@, head, tail),
{
    let ghost loaded = arr@;
    let register = StaticDeque::new(arr);
    proof {
        assert forall|i: int| 0 <= i < tail.len() implies cloned(
            tail[i],
            #[trigger] register@[tail.len() - 1 - i],
        ) by {
            assert(register@[tail.len() - 1 - i] == loaded[head.len() + i]);
        }
        assert forall|i: int| 0 <= i < head.len() implies cloned(
            head[i],
            #[trigger] register@[register@.len() - 1 - i],
        ) by {
            assert(register@[register@.len() - 1 - i] == loaded[i]);
        }
    }
    register
}

impl<T: Clone> TriviumRegisters<T> {
    /// The bits of the first register, the youngest first.
    pub closed spec fn a(&self) -> Seq<T> {
        self.a@
    }

    /// The bits of the second register, the youngest first.
    pub closed spec fn b(&self) -> Seq<T> {
        self.b@
    }

    /// The bits of the third register, the youngest first.
    pub closed spec fn c(&self) -> Seq<T> {
        self.c@
    }

    /// Whether the registers are consistent: each holds as many bits as it
    /// has.
    pub closed spec fn wf(&self) -> bool {
        &&& self.a.wf()
        &&& self.b.wf()
        &&& self.c.wf()
    }

    /// Consistent registers hold 93, 84 and 111 bits.
    pub proof fn lemma_lengths(&self)
        requires
            self.wf(),
        ensures
            self.a().len() == 93,
            self.b().len() == 84,
            self.c().len() == 111,
    {
        self.a.lemma_len();
        self.b.lemma_len();
        self.c.lemma_len();
    }

    /// The registers at the start: the first holds zeros and then the 80
    /// bits of the key, the second zeros and then the 80 bits of the input
    /// vector, the third three ones and then zeros.
    pub fn new(key: &Vec<T>, iv: &Vec<T>, zero: &T, one: &T) -> (registers: Self)
        requires
            key@.len() == 80,
            iv@.len() == 80,
        ensures
            registers.wf(),
            is_loaded_with(registers.a(), Seq::new(13, |i: int| *zero), key@),
            is_loaded_with(registers.b(), Seq::new(4, |i: int| *zero), iv@),
            is_loaded_with(
                registers.c(),
                Seq::new(3, |i: int| *one),
                Seq::new(108, |i: int| *zero),
            ),
    {
        let mut first: Vec<T> = Vec::new();
        push_copies(&mut first, zero, 13);
        let ghost zeros = first@;
        assert forall|k: int| 0 <= k < 13 implies cloned(*zero, #[trigger] zeros[k]) by {
            assert(zeros[k] == zeros[0 + k]);
        }
        push_copies_of(&mut first, key);
        let a = register_of::<93, T>(first, Ghost(Seq::new(13, |i: int| *zero)), Ghost(key@));

        let mut second: Vec<T> = Vec::new();
        push_copies(&mut second, zero, 4);
        let ghost zeros = second@;
        assert forall|k: int| 0 <= k < 4 implies cloned(*zero, #[trigger] zeros[k]) by {
            assert(zeros[k] == zeros[0 + k]);
        }
        push_copies_of(&mut second, iv);
        let b = register_of::<84, T>(second, Ghost(Seq::new(4, |i: int| *zero)), Ghost(iv@));

        let mut third: Vec<T> = Vec::new();
        push_copies(&mut third, one, 3);
        let ghost ones = third@;
        assert forall|k: int| 0 <= k < 3 implies cloned(*one, #[trigger] ones[k]) by {
            assert(ones[k] == ones[0 + k]);
        }
        push_copies(&mut third, zero, 108);
        let c = register_of::<111, T>(
            third,
            Ghost(Seq::new(3, |i: int| *one)),
            Ghost(Seq::new(108, |i: int| *zero)),
        );
        TriviumRegisters { a, b, c }
    }

    /// What the step that comes `n` steps from now reads in the first
    /// register, as the registers are.
    pub fn taps_a(&self, n: usize) -> (taps: RegisterTaps<'_, T>)
        requires
            self.wf(),
            n < 64,
        ensures
            *taps.sum.0 == self.a()[65 - n],
            *taps.sum.1 == self.a()[92 - n],
            *taps.product.0 == self.a()[91 - n],
            *taps.product.1 == self.a()[90 - n],
            *taps.feedback == self.a()[68 - n],
    {
        RegisterTaps {
            sum: (self.a.get(65 - n), self.a.get(92 - n)),
            product: (self.a.get(91 - n), self.a.get(90 - n)),
            feedback: self.a.get(68 - n),
        }
    }

    /// What the step that comes `n` steps from now reads in the second
    /// register, as the registers are.
    pub fn taps_b(&self, n: usize) -> (taps: RegisterTaps<'_, T>)
        requires
            self.wf(),
            n < 64,
        ensures
            *taps.sum.0 == self.b()[68 - n],
            *taps.sum.1 == self.b()[83 - n],
            *taps.product.0 == self.b()[82 - n],
            *taps.product.1 == self.b()[81 - n],
            *taps.feedback == self.b()[77 - n],
    {
        RegisterTaps {
            sum: (self.b.get(68 - n), self.b.get(83 - n)),
            product: (self.b.get(82 - n), self.b.get(81 - n)),
            feedback: self.b.get(77 - n),
        }
    }

    /// What the step that comes `n` steps from now reads in the third
    /// register, as the registers are.
    pub fn taps_c(&self, n: usize) -> (taps: RegisterTaps<'_, T>)
        requires
            self.wf(),
            n < 64,
        ensures
            *taps.sum.0 == self.c()[65 - n],
            *taps.sum.1 == self.c()[110 - n],
            *taps.product.0 == self.c()[109 - n],
            *taps.product.1 == self.c()[108 - n],
            *taps.feedback == self.c()[86 - n],
    {
        RegisterTaps {
            sum: (self.c.get(65 - n), self.c.get(110 - n)),
            product: (self.c.get(109 - n), self.c.get(108 - n)),
            feedback: self.c.get(86 - n),
        }
    }

    /// One step: each register takes its new bit in, and its oldest bit
    /// goes out.
    pub fn push(&mut self, a: T, b: T, c: T)
        requires
            old(self).wf(),
        ensures
            final(self).wf(),
            final(self).a() == seq![a] + old(self).a().drop_last(),
            final(self).b() == seq![b] + old(self).b().drop_last(),
            final(self).c() == seq![c] + old(self).c().drop_last(),
    {
        self.a.push(a);
        self.b.push(b);
        self.c.push(c);
    }
}

} // verus!
