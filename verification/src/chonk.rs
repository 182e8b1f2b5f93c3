//! A vector with a maximum size, that gives back whatever does not fit.

use vstd::prelude::*;
use vstd::std_specs::cmp::PartialEqSpec;
use vstd::std_specs::iter::IteratorSpec;

verus! {

/// The split that `curtail` makes: the first `max_size` items stay, the rest
/// (if there is any) is handed back.
pub open spec fn curtail_spec<T>(data: Seq<T>, max_size: nat) -> (Seq<T>, Option<Seq<T>>) {
    if data.len() > max_size {
        (data.take(max_size as int), Some(data.skip(max_size as int)))
    } else {
        (data, None)
    }
}

/// What slurping `other` into a chonk holding `data` leaves in it, and hands back.
pub open spec fn slurp_spec<T>(data: Seq<T>, max_size: nat, other: Seq<T>) -> (Seq<T>, Option<Seq<T>>) {
    curtail_spec(data + other, max_size)
}

/// What plooping `other` into a chonk holding `data` leaves in it, and hands back.
pub open spec fn ploop_spec<T>(data: Seq<T>, max_size: nat, other: Seq<T>) -> (Seq<T>, Option<Seq<T>>) {
    curtail_spec(other + data, max_size)
}

/// The items that an optional vector holds, as an optional sequence.
pub open spec fn opt_view<T>(v: Option<Vec<T>>) -> Option<Seq<T>> {
    match v {
        Some(v) => Some(v@),
        None => None,
    }
}

/// The items of an optional sequence; nothing for `None`.
pub open spec fn excess_items<T>(v: Option<Seq<T>>) -> Seq<T> {
    match v {
        Some(s) => s,
        None => Seq::empty(),
    }
}

/// How many items `nom_iter` takes out of an input that holds `available` items
/// when `room` slots are left.
pub open spec fn nom_count(available: nat, room: int) -> int {
    if available <= room {
        available as int
    } else {
        room
    }
}

/// Curtailing splits the items in two, in order: what is kept, then what is
/// handed back. Exactly `max_size` items are kept when there are more than that,
/// and then something is handed back; otherwise everything is kept and nothing is.
pub proof fn law_curtail_splits<T>(data: Seq<T>, max_size: nat)
    ensures
        curtail_spec(data, max_size).0 + excess_items(curtail_spec(data, max_size).1) == data,
        curtail_spec(data, max_size).0.len() == if data.len() <= max_size { data.len() } else { max_size },
        curtail_spec(data, max_size).1 is None <==> data.len() <= max_size,
        curtail_spec(data, max_size).1 is Some ==> curtail_spec(data, max_size).1->0.len() > 0,
{
    if data.len() > max_size {
        assert(data.take(max_size as int) + data.skip(max_size as int) =~= data);
    } else {
        assert(data + Seq::<T>::empty() =~= data);
    }
}

/// What a curtail keeps fits: curtailing it again with the same maximum size
/// keeps everything and hands back nothing.
pub proof fn law_curtail_idempotent<T>(data: Seq<T>, max_size: nat)
    ensures
        curtail_spec(curtail_spec(data, max_size).0, max_size)
            == (curtail_spec(data, max_size).0, None::<Seq<T>>),
{
}

/// Slurping `other` into a chonk holding `data` loses nothing and adds nothing:
/// the chonk's new items followed by the excess are `data` followed by `other`;
/// the chonk keeps as many items as fit; the excess is `None` exactly when
/// everything fits; a chonk that was within its maximum size keeps its old items
/// at the front.
pub proof fn law_slurp_conserves<T>(data: Seq<T>, other: Seq<T>, max_size: nat)
    ensures
        slurp_spec(data, max_size, other).0 + excess_items(slurp_spec(data, max_size, other).1)
            == data + other,
        slurp_spec(data, max_size, other).0.len() == if data.len() + other.len() <= max_size {
            data.len() + other.len()
        } else {
            max_size
        },
        slurp_spec(data, max_size, other).1 is None <==> data.len() + other.len() <= max_size,
        data.len() <= max_size ==> slurp_spec(data, max_size, other).0.take(data.len() as int) == data,
{
    law_curtail_splits(data + other, max_size);
    if data.len() <= max_size {
        assert(curtail_spec(data + other, max_size).0.take(data.len() as int) =~= data);
    }
}

/// Plooping `other` into a chonk holding `data` loses nothing and adds nothing,
/// and puts `other` first: the chonk's new items followed by the excess are
/// `other` followed by `data`; the chonk keeps as many items as fit, with as much
/// of `other` as fits at the front; the excess is `None` exactly when everything fits.
pub proof fn law_ploop_prepends<T>(data: Seq<T>, other: Seq<T>, max_size: nat)
    ensures
        ploop_spec(data, max_size, other).0 + excess_items(ploop_spec(data, max_size, other).1)
            == other + data,
        ploop_spec(data, max_size, other).0.len() == if data.len() + other.len() <= max_size {
            data.len() + other.len()
        } else {
            max_size
        },
        ploop_spec(data, max_size, other).1 is None <==> data.len() + other.len() <= max_size,
        other.len() <= max_size ==> ploop_spec(data, max_size, other).0.take(other.len() as int) == other,
        other.len() > max_size ==> ploop_spec(data, max_size, other).0 == other.take(max_size as int),
{
    law_curtail_splits(other + data, max_size);
    let kept = curtail_spec(other + data, max_size).0;
    if other.len() <= max_size {
        assert(kept.take(other.len() as int) =~= other);
    } else {
        assert(kept =~= other.take(max_size as int));
    }
}

/// Plooping `other` into a chonk holding `data` gives the same items and the same
/// excess as making a chonk of `other` with the same maximum size and slurping
/// `data` into it.
pub proof fn law_ploop_is_slurp_into_other<T>(data: Seq<T>, other: Seq<T>, max_size: nat)
    ensures
        ploop_spec(data, max_size, other) == slurp_spec(other, max_size, data),
{
}

/// A chunk of items with a maximum size.
#[derive(Debug)]
pub struct Chonk<T> {
    data: Vec<T>,
    max_size: usize,
}

impl<T> View for Chonk<T> {
    type V = Seq<T>;

    /// The items the chonk holds, in order.
    closed spec fn view(&self) -> Seq<T> {
        self.data@
    }
}

impl<T> Chonk<T> {
    /// The maximum size the chonk is held to.
    pub closed spec fn limit(&self) -> usize {
        self.max_size
    }

    /// Get a new self. Takes a usize for constraining the maximum size of the chonk.
    pub fn new(max_size: usize) -> (r: Self)
        ensures
            r@ == Seq::<T>::empty(),
            r.limit() == max_size,
    {
        let data = Vec::with_capacity(max_size);
        Self { data, max_size }
    }

    /// The number of items in the chonk.
    pub fn len(&self) -> (r: usize)
        ensures
            r == self@.len(),
    {
        self.data.len()
    }

    /// Like set_max_size, but immediately curtails size to enforce the new maximum size.
    pub fn do_max_size(&mut self, max_size: usize) -> (r: Option<Vec<T>>)
        ensures
            final(self).limit() == max_size,
            (final(self)@, opt_view(r)) == curtail_spec(old(self)@, max_size as nat),
    {
        self.max_size = max_size;
        self.curtail()
    }

    /// Sets maximum size
    pub fn set_max_size(&mut self, max_size: usize)
        ensures
            final(self).limit() == max_size,
            final(self)@ == old(self)@,
    {
        self.max_size = max_size;
    }

    /// To slurp a Vec, is to consume the elements inside them and append them to yourself
    /// but if you consume too much (exceeding `max_size`), you may find yourself secreting the excess.
    /// If it fits nicely, you return `None`, otherwise you return `Some<Vec<T>>`.
    pub fn slurp(&mut self, other: &mut Vec<T>) -> (r: Option<Vec<T>>)
        ensures
            final(self).limit() == old(self).limit(),
            final(other)@ == Seq::<T>::empty(),
            (final(self)@, opt_view(r)) == slurp_spec(old(self)@, old(self).limit() as nat, old(other)@),
    {
        self.data.append(other);
        self.curtail()
    }

    /// To `ploop` a Vec, is to consume the elements inside it and prepend it to yourself
    /// but if you consume too much (exceeding max_size), you may find yourself secreting the excess.
    /// If it fits nicely, you return None, otherwise you return `Some<Vec<T>>`.
    pub fn ploop(self, other: Vec<T>) -> (r: (Self, Option<Vec<T>>))
        ensures
            r.0.limit() == self.limit(),
            (r.0@, opt_view(r.1)) == ploop_spec(self@, self.limit() as nat, other@),
    {
        let mut this = self;
        let mut old_data = Vec::new();
        std::mem::swap(&mut old_data, &mut this.data);
        this.data = other;
        let curtailed = this.slurp(&mut old_data);
        (this, curtailed)
    }

    /// Splits the end off according to the maximum size of the chonk
    pub fn curtail(&mut self) -> (r: Option<Vec<T>>)
        ensures
            final(self).limit() == old(self).limit(),
            (final(self)@, opt_view(r)) == curtail_spec(old(self)@, old(self).limit() as nat),
    {
        if self.data.len() > self.max_size {
            let excess = self.data.split_off(self.max_size);
            assert(self.data@ =~= old(self).data@.take(self.max_size as int));
            assert(excess@ =~= old(self).data@.skip(self.max_size as int));
            Some(excess)
        } else {
            None
        }
    }

    /// Eat a vector, returning self with the internal data being made from that vector,
    /// and with `max_size` set according to the second argument.
    pub fn from_with_max_size(v: Vec<T>, max_size: usize) -> (r: Self)
        ensures
            r@ == v@,
            r.limit() == max_size,
    {
        Self { data: v, max_size }
    }

    /// Unlike `slurp`, and `ploop`, `nom` is a precision operation. `nom` never takes more than needed:
    /// it appends items of `input` until the chonk is full or the input runs out.
    /// Which items are appended is stated for iterators that follow vstd's iterator laws;
    /// for any other iterator (such as `std::iter::from_fn` or an endless one like
    /// `std::iter::repeat`) only the bounds on the length and the kept front items are stated.
    pub fn nom_iter<I: Iterator<Item = T>>(&mut self, input: I)
        requires
            old(self)@.len() <= old(self).limit(),
        ensures
            final(self).limit() == old(self).limit(),
            old(self)@.len() <= final(self)@.len() <= old(self).limit(),
            final(self)@.take(old(self)@.len() as int) == old(self)@,
            input.obeys_prophetic_iter_laws() ==> final(self)@ == old(self)@ + input.remaining().take(
                nom_count(input.remaining().len(), old(self).limit() - old(self)@.len()),
            ),
    {
        let mut input = input;
        let ghost obeys = input.obeys_prophetic_iter_laws();
        let ghost rem0 = input.remaining();
        let room = self.max_size - self.data.len();
        let mut taken: Vec<T> = Vec::new();
        while taken.len() < room
            invariant
                taken.len() <= room,
                input.obeys_prophetic_iter_laws() == obeys,
                obeys ==> taken@ + input.remaining() == rem0,
            ensures
                taken.len() <= room,
                obeys ==> taken@ + input.remaining() == rem0,
                taken.len() == room || (obeys ==> input.remaining().len() == 0),
            decreases room - taken.len(),
        {
            match input.next() {
                Some(x) => taken.push(x),
                None => break,
            }
        }
        proof {
            if obeys {
                assert(rem0.take(taken.len() as int) =~= taken@);
            }
        }
        self.data.append(&mut taken);
        assert(self.data@.take(old(self).data@.len() as int) =~= old(self).data@);
    }

    /// Replaces every item `x` of the chonk, in order, by `f(x)`.
    pub fn for_each_mut<F: Fn(T) -> T>(&mut self, f: F)
        requires
            forall|i: int| 0 <= i < old(self)@.len() ==> call_requires(f, (#[trigger] old(self)@[i],)),
        ensures
            final(self).limit() == old(self).limit(),
            final(self)@.len() == old(self)@.len(),
            forall|i: int|
                0 <= i < old(self)@.len() ==> call_ensures(
                    f,
                    (#[trigger] old(self)@[i],),
                    final(self)@[i],
                ),
    {
        let mut old_data: Vec<T> = Vec::new();
        std::mem::swap(&mut old_data, &mut self.data);
        let ghost items = old_data@;
        assert(items == old(self)@);
        let mut out: Vec<T> = Vec::new();
        for x in it: old_data.into_iter()
            invariant
                items == old(self)@,
                it.seq() == items,
                out@.len() == it.index(),
                forall|i: int| 0 <= i < items.len() ==> call_requires(f, (#[trigger] items[i],)),
                forall|i: int| 0 <= i < out@.len() ==> call_ensures(f, (#[trigger] items[i],), out@[i]),
        {
            let y = f(x);
            out.push(y);
        }
        self.data = out;
    }
}

impl<T: PartialEq> PartialEq for Chonk<T> {
    fn eq(&self, other: &Self) -> (r: bool) {
        self.data == other.data
    }
}

impl<T: PartialEq> vstd::std_specs::cmp::PartialEqSpecImpl for Chonk<T> {
    open spec fn obeys_eq_spec() -> bool {
        T::obeys_eq_spec()
    }

    open spec fn eq_spec(&self, other: &Self) -> bool {
        &&& self@.len() == other@.len()
        &&& forall|i: int| 0 <= i < self@.len() ==> (#[trigger] self@[i]).eq_spec(&other@[i])
    }
}

impl<T: PartialEq> PartialEq<Vec<T>> for Chonk<T> {
    fn eq(&self, other: &Vec<T>) -> (r: bool) {
        self.data == *other
    }
}

impl<T: PartialEq> vstd::std_specs::cmp::PartialEqSpecImpl<Vec<T>> for Chonk<T> {
    open spec fn obeys_eq_spec() -> bool {
        T::obeys_eq_spec()
    }

    open spec fn eq_spec(&self, other: &Vec<T>) -> bool {
        &&& self@.len() == other@.len()
        &&& forall|i: int| 0 <= i < self@.len() ==> (#[trigger] self@[i]).eq_spec(&other@[i])
    }
}

impl<T: PartialEq> PartialEq<Option<Vec<T>>> for Chonk<T> {
    fn eq(&self, other: &Option<Vec<T>>) -> (r: bool) {
        match other {
            None => false,
            Some(data) => self.data == *data,
        }
    }
}

impl<T: PartialEq> vstd::std_specs::cmp::PartialEqSpecImpl<Option<Vec<T>>> for Chonk<T> {
    open spec fn obeys_eq_spec() -> bool {
        T::obeys_eq_spec()
    }

    open spec fn eq_spec(&self, other: &Option<Vec<T>>) -> bool {
        match other {
            None => false,
            Some(data) => {
                &&& self@.len() == data@.len()
                &&& forall|i: int| 0 <= i < self@.len() ==> (#[trigger] self@[i]).eq_spec(&data@[i])
            },
        }
    }
}


/// For items whose equality is structural, two chonks are equal exactly when
/// they hold the same items in the same order; their maximum sizes play no part.
pub proof fn law_eq_compares_items<T: PartialEq>(a: Chonk<T>, b: Chonk<T>)
    requires
        vstd::laws_eq::obeys_concrete_eq::<T>(),
    ensures
        <Chonk<T> as PartialEqSpec>::eq_spec(&a, &b) <==> a@ == b@,
{
    reveal(vstd::laws_eq::obeys_concrete_eq);
    if <Chonk<T> as PartialEqSpec>::eq_spec(&a, &b) {
        assert(a@ =~= b@);
    }
}

/// For items whose equality is structural, a chonk equals a vector exactly when
/// it holds the vector's items in the same order.
pub proof fn law_eq_vec_compares_items<T: PartialEq>(a: Chonk<T>, v: Vec<T>)
    requires
        vstd::laws_eq::obeys_concrete_eq::<T>(),
    ensures
        <Chonk<T> as PartialEqSpec<Vec<T>>>::eq_spec(&a, &v) <==> a@ == v@,
{
    reveal(vstd::laws_eq::obeys_concrete_eq);
    if <Chonk<T> as PartialEqSpec<Vec<T>>>::eq_spec(&a, &v) {
        assert(a@ =~= v@);
    }
}

/// For items whose equality is structural, a chonk equals `Some(v)` exactly when
/// it holds the items of `v` in the same order, and never equals `None`.
pub proof fn law_eq_option_compares_items<T: PartialEq>(a: Chonk<T>, o: Option<Vec<T>>)
    requires
        vstd::laws_eq::obeys_concrete_eq::<T>(),
    ensures
        <Chonk<T> as PartialEqSpec<Option<Vec<T>>>>::eq_spec(&a, &o) <==> (o is Some && a@ == o->0@),
{
    reveal(vstd::laws_eq::obeys_concrete_eq);
    if <Chonk<T> as PartialEqSpec<Option<Vec<T>>>>::eq_spec(&a, &o) {
        assert(a@ =~= o->0@);
    }
}

impl<T> IntoIterator for Chonk<T> {
    type Item = T;
    type IntoIter = std::vec::IntoIter<T>;

    fn into_iter(self) -> (r: Self::IntoIter)
        ensures
            r.remaining() == self@,
    {
        self.data.into_iter()
    }
}

impl<T> From<Vec<T>> for Chonk<T> {
    fn from(value: Vec<T>) -> (r: Self)
        ensures
            r@ == value@,
            r.limit() == value@.len(),
    {
        let value_len = value.len();
        Self { data: value, max_size: value_len }
    }
}

impl<T> vstd::std_specs::convert::FromSpecImpl<Vec<T>> for Chonk<T> {
    open spec fn obeys_from_spec() -> bool {
        true
    }

    closed spec fn from_spec(v: Vec<T>) -> Self {
        Chonk { data: v, max_size: v@.len() as usize }
    }
}

} // verus!
