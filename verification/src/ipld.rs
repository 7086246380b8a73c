//! Ipld representation.
use vstd::prelude::*;
use vstd::std_specs::convert::FromSpecImpl;
use vstd::slice::slice_to_vec;
use cid::Cid;
use crate::decimal::{decimal, parse_i64, parse_usize, read_i64, read_usize, write_u64_decimal};
use crate::error::{case_of, selector_of, TypeError, TypeErrorType, TypeErrorView};
use crate::map::{IntegerMap, StringMap};

verus! {

/// Ipld
#[derive(Debug, PartialEq)]
pub enum Ipld {
    /// Represents the absence of a value or the value undefined.
    Null,
    /// Represents a boolean value.
    Bool(bool),
    /// Represents an integer.
    Integer(i128),
    /// Represents a floating point value, held as its IEEE 754 binary64 bit pattern.
    Float(u64),
    /// Represents an UTF-8 string.
    String(String),
    /// Represents a sequence of bytes.
    Bytes(Vec<u8>),
    /// Represents a list.
    List(Vec<Ipld>),
    /// Represents a map of strings.
    StringMap(StringMap),
    /// Represents a map of integers.
    IntegerMap(IntegerMap),
    /// Represents a link to an Ipld node.
    Link(Cid),
    /// A cbor tag.
    Tag(u64, Box<Ipld>),
}

/// An index into ipld
pub enum IpldIndex<'a> {
    /// An index into an ipld list.
    List(usize),
    /// An owned index into an ipld map.
    MapOwned(String),
    /// An index into an ipld map.
    MapRef(&'a str),
}

/// What an `Ipld` stands for: the same cases, with strings, bytes and containers as
/// sequences, and the entries of a map in the order of their keys.
pub ghost enum IpldView {
    Null,
    Bool(bool),
    Integer(i128),
    Float(u64),
    String(Seq<char>),
    Bytes(Seq<u8>),
    List(Seq<IpldView>),
    StringMap(Seq<(Seq<char>, IpldView)>),
    IntegerMap(Seq<(int, IpldView)>),
    Link(Cid),
    Tag(u64, Box<IpldView>),
}

/// What each of `values` stands for.
pub open spec fn ipld_views(values: Seq<Ipld>) -> Seq<IpldView>
    decreases values.len(),
{
    if values.len() == 0 {
        Seq::empty()
    } else {
        ipld_views(values.drop_last()).push(values.last().view())
    }
}

/// The views of values stand at the positions of the values.
pub proof fn lemma_ipld_views(values: Seq<Ipld>)
    ensures
        ipld_views(values).len() == values.len(),
        forall|i: int| 0 <= i < values.len() ==> (#[trigger] ipld_views(values)[i]) == values[i]@,
    decreases values.len(),
{
    if values.len() > 0 {
        lemma_ipld_views(values.drop_last());
        assert(ipld_views(values) == ipld_views(values.drop_last()).push(values.last().view()));
    } else {
        assert(ipld_views(values) == Seq::<IpldView>::empty());
    }
}

/// The pairs of the keys and the views at the same positions.
pub open spec fn entry_views<K>(keys: Seq<K>, views: Seq<IpldView>) -> Seq<(K, IpldView)> {
    Seq::new(keys.len(), |i: int| (keys[i], views[i]))
}

/// What an index stands for: a position, or a key as its characters.
pub ghost enum IpldIndexView {
    List(usize),
    Key(Seq<char>),
}

impl<'a> View for IpldIndex<'a> {
    type V = IpldIndexView;

    open spec fn view(&self) -> IpldIndexView {
        match self {
            IpldIndex::List(i) => IpldIndexView::List(*i),
            IpldIndex::MapOwned(s) => IpldIndexView::Key(s@),
            IpldIndex::MapRef(s) => IpldIndexView::Key(s@),
        }
    }
}

impl<'a> From<usize> for IpldIndex<'a> {
    fn from(index: usize) -> (r: Self) {
        Self::List(index)
    }
}

impl<'a> FromSpecImpl<usize> for IpldIndex<'a> {
    open spec fn obeys_from_spec() -> bool {
        true
    }

    open spec fn from_spec(index: usize) -> Self {
        IpldIndex::List(index)
    }
}

impl<'a> From<String> for IpldIndex<'a> {
    fn from(key: String) -> (r: Self) {
        Self::MapOwned(key)
    }
}

impl<'a> FromSpecImpl<String> for IpldIndex<'a> {
    open spec fn obeys_from_spec() -> bool {
        true
    }

    open spec fn from_spec(key: String) -> Self {
        IpldIndex::MapOwned(key)
    }
}

impl<'a> From<&'a str> for IpldIndex<'a> {
    fn from(key: &'a str) -> (r: Self) {
        Self::MapRef(key)
    }
}

impl<'a> FromSpecImpl<&'a str> for IpldIndex<'a> {
    open spec fn obeys_from_spec() -> bool {
        true
    }

    open spec fn from_spec(key: &'a str) -> Self {
        IpldIndex::MapRef(key)
    }
}

/// The position in a list that an index selects: its own, or the one that its key
/// denotes in decimal.
pub open spec fn list_position(index: IpldIndexView) -> Option<usize> {
    match index {
        IpldIndexView::List(i) => Some(i),
        IpldIndexView::Key(s) => parse_usize(s),
    }
}

/// The key of an integer map that an index selects: its position as a 64-bit integer,
/// or the integer that its key denotes in decimal.
pub open spec fn integer_key(index: IpldIndexView) -> Option<i64> {
    match index {
        IpldIndexView::List(i) => Some(i as i64),
        IpldIndexView::Key(s) => parse_i64(s),
    }
}

/// The key of a string map that an index selects: its own, or its position in decimal.
pub open spec fn string_key(index: IpldIndexView) -> Seq<char> {
    match index {
        IpldIndexView::List(i) => decimal(i as nat),
        IpldIndexView::Key(s) => s,
    }
}

/// The links among `nodes`, in their order and with repetitions.
pub open spec fn link_targets(nodes: Seq<Ipld>) -> Seq<Cid>
    decreases nodes.len(),
{
    if nodes.len() == 0 {
        Seq::empty()
    } else {
        let rest = link_targets(nodes.drop_last());
        match nodes.last() {
            Ipld::Link(cid) => rest.push(cid),
            _ => rest,
        }
    }
}

impl Ipld {
    /// The values directly inside this one, in order: the elements of a list, the values
    /// of a map in the order of their keys, the payload of a tag.
    pub open spec fn children(&self) -> Seq<Ipld> {
        match self {
            Ipld::List(l) => l@,
            Ipld::StringMap(m) => m.values(),
            Ipld::IntegerMap(m) => m.values(),
            Ipld::Tag(_, inner) => seq![**inner],
            _ => Seq::empty(),
        }
    }

    /// Each child is a smaller term than its parent.
    pub proof fn lemma_child_decreases(&self, i: int)
        requires
            0 <= i < self.children().len(),
        ensures
            decreases_to!(self => self.children()[i]),
    {
        match self {
            Ipld::List(l) => {
                vstd::std_specs::vec::axiom_vec_index_decreases(*l, i);
            },
            Ipld::StringMap(m) => {
                m.lemma_value_decreases(i);
            },
            Ipld::IntegerMap(m) => {
                m.lemma_value_decreases(i);
            },
            _ => {},
        }
    }

    /// A value has no more children than a `usize` counts.
    pub proof fn lemma_children_fit(&self)
        ensures
            self.children().len() <= usize::MAX,
    {
        match self {
            Ipld::List(l) => {
                assert(l@.len() == l.len());
            },
            Ipld::StringMap(m) => {
                m.lemma_lengths();
            },
            Ipld::IntegerMap(m) => {
                m.lemma_lengths();
            },
            _ => {},
        }
    }

    /// The value and all the values inside it, depth first: the value itself, then each
    /// child with all that is inside it, in the order of the children.
    pub open spec fn preorder(&self) -> Seq<Ipld>
        decreases self, 1nat, 0nat,
    {
        seq![*self] + self.preorder_from(0)
    }

    /// The part of `preorder` that the children from position `i` on contribute.
    pub open spec fn preorder_from(&self, i: nat) -> Seq<Ipld>
        decreases self, 0nat, self.children().len() - i,
    {
        if i >= self.children().len() {
            Seq::empty()
        } else {
            proof {
                self.lemma_child_decreases(i as int);
            }
            self.children()[i as int].preorder() + self.preorder_from(i + 1)
        }
    }

    /// How many links the value holds, at any depth and with repetitions.
    pub open spec fn link_count(&self) -> nat
        decreases self, 1nat, 0nat,
    {
        let own: nat = if self is Link {
            1
        } else {
            0
        };
        own + self.link_count_from(0)
    }

    /// The part of `link_count` that the children from position `i` on contribute.
    pub open spec fn link_count_from(&self, i: nat) -> nat
        decreases self, 0nat, self.children().len() - i,
    {
        if i >= self.children().len() {
            0
        } else {
            proof {
                self.lemma_child_decreases(i as int);
            }
            self.children()[i as int].link_count() + self.link_count_from(i + 1)
        }
    }

    /// The type error of indexing this value with `index`.
    pub open spec fn mismatch(&self, index: IpldIndexView) -> TypeErrorView {
        TypeErrorView { expected: selector_of(index), found: case_of(self)@ }
    }

    /// What indexing with `index` selects. A list is indexed by position, a map by key; a
    /// tag hands the index on to its payload; nothing else can be indexed.
    pub open spec fn select(&self, index: IpldIndexView) -> Result<Ipld, TypeErrorView>
        decreases self,
    {
        match self {
            Ipld::Tag(_, inner) => inner.select(index),
            Ipld::List(l) => match list_position(index) {
                Some(i) => if i < l@.len() {
                    Ok(l@[i as int])
                } else {
                    Err(self.mismatch(index))
                },
                None => Err(self.mismatch(index)),
            },
            Ipld::IntegerMap(m) => match integer_key(index) {
                Some(k) => match m.lookup(k as int) {
                    Some(v) => Ok(v),
                    None => Err(self.mismatch(index)),
                },
                None => Err(self.mismatch(index)),
            },
            Ipld::StringMap(m) => match m.lookup(string_key(index)) {
                Some(v) => Ok(v),
                None => Err(self.mismatch(index)),
            },
            _ => Err(self.mismatch(index)),
        }
    }

    /// Whether `r` is what indexing with `index` gives: a reference to the value that
    /// `select` selects, or the type error of `select`.
    pub open spec fn selects(&self, index: IpldIndexView, r: Result<&Ipld, TypeError>) -> bool {
        match r {
            Ok(v) => self.select(index) == Ok::<Ipld, TypeErrorView>(*v),
            Err(e) => self.select(index) == Err::<Ipld, TypeErrorView>(e@),
        }
    }

    /// Whether `r` is what taking at `index` gives: the value that `select` selects, or
    /// the type error of `select`.
    pub open spec fn yields(&self, index: IpldIndexView, r: Result<Ipld, TypeError>) -> bool {
        match r {
            Ok(v) => self.select(index) == Ok::<Ipld, TypeErrorView>(v),
            Err(e) => self.select(index) == Err::<Ipld, TypeErrorView>(e@),
        }
    }

    /// The value under any tags that wrap it.
    pub open spec fn untagged(&self) -> Ipld
        decreases self,
    {
        match self {
            Ipld::Tag(_, inner) => inner.untagged(),
            _ => *self,
        }
    }
}

impl Ipld {
    /// What the first `n` children stand for.
    pub open spec fn child_views(&self, n: nat) -> Seq<IpldView>
        decreases self, n,
    {
        if n == 0 || n > self.children().len() {
            Seq::empty()
        } else {
            proof {
                self.lemma_child_decreases(n - 1);
            }
            self.child_views((n - 1) as nat).push(self.children()[n - 1].view())
        }
    }

    /// The views of the children are the views of the sequence of children.
    pub proof fn lemma_child_views(&self, n: nat)
        requires
            n <= self.children().len(),
        ensures
            self.child_views(n) == ipld_views(self.children().take(n as int)),
        decreases n,
    {
        let taken = self.children().take(n as int);
        if n > 0 {
            self.lemma_child_views((n - 1) as nat);
            assert(taken.drop_last() =~= self.children().take(n - 1));
            assert(taken.last() == self.children()[n - 1]);
            assert(ipld_views(taken) == ipld_views(taken.drop_last()).push(taken.last().view()));
        } else {
            assert(ipld_views(taken) == Seq::<IpldView>::empty());
        }
    }
}

impl View for Ipld {
    type V = IpldView;

    open spec fn view(&self) -> IpldView
        decreases self, self.children().len() + 1,
    {
        let views = self.child_views(self.children().len());
        match self {
            Ipld::Null => IpldView::Null,
            Ipld::Bool(b) => IpldView::Bool(*b),
            Ipld::Integer(i) => IpldView::Integer(*i),
            Ipld::Float(bits) => IpldView::Float(*bits),
            Ipld::String(s) => IpldView::String(s@),
            Ipld::Bytes(b) => IpldView::Bytes(b@),
            Ipld::List(_) => IpldView::List(views),
            Ipld::StringMap(m) => IpldView::StringMap(entry_views(m.keys(), views)),
            Ipld::IntegerMap(m) => IpldView::IntegerMap(entry_views(m.keys(), views)),
            Ipld::Link(cid) => IpldView::Link(*cid),
            Ipld::Tag(tag, _) => IpldView::Tag(*tag, Box::new(views[0])),
        }
    }
}

impl Clone for Ipld {
    /// A deep copy.
    fn clone(&self) -> (r: Self)
        ensures
            r@ == self@,
        decreases self,
    {
        let r = match self {
            Ipld::Null => Ipld::Null,
            Ipld::Bool(b) => Ipld::Bool(*b),
            Ipld::Integer(i) => Ipld::Integer(*i),
            Ipld::Float(f) => Ipld::Float(*f),
            Ipld::String(s) => Ipld::String(s.clone()),
            Ipld::Bytes(b) => Ipld::Bytes(slice_to_vec(b.as_slice())),
            Ipld::List(l) => {
                let mut out: Vec<Ipld> = Vec::new();
                let mut i: usize = 0;
                assert(ipld_views(out@) =~= ipld_views(l@.take(0)));
                while i < l.len()
                    invariant
                        i <= l.len(),
                        *self == Ipld::List(*l),
                        out@.len() == i,
                        ipld_views(out@) == ipld_views(l@.take(i as int)),
                    decreases l.len() - i,
                {
                    proof {
                        self.lemma_child_decreases(i as int);
                    }
                    let ghost before = out@;
                    let item = l[i].clone();
                    out.push(item);
                    proof {
                        let taken = l@.take(i + 1);
                        assert(out@.drop_last() =~= before);
                        assert(taken.drop_last() =~= l@.take(i as int));
                        assert(ipld_views(out@) == ipld_views(before).push(item@));
                        assert(ipld_views(taken) == ipld_views(taken.drop_last()).push(
                            taken.last().view(),
                        ));
                    }
                    i += 1;
                }
                assert(l@.take(i as int) =~= l@);
                Ipld::List(out)
            },
            Ipld::StringMap(m) => Ipld::StringMap(m.clone()),
            Ipld::IntegerMap(m) => Ipld::IntegerMap(m.clone()),
            Ipld::Link(c) => Ipld::Link(*c),
            Ipld::Tag(t, inner) => Ipld::Tag(*t, Box::new((**inner).clone())),
        };
        proof {
            match self {
                Ipld::Tag(_, inner) => {
                    let a = seq![**inner];
                    let b = seq![*r->Tag_1];
                    assert(a.drop_last() =~= Seq::<Ipld>::empty());
                    assert(b.drop_last() =~= Seq::<Ipld>::empty());
                    assert(ipld_views(a) == ipld_views(a.drop_last()).push(a.last().view()));
                    assert(ipld_views(b) == ipld_views(b.drop_last()).push(b.last().view()));
                    assert(ipld_views(a.drop_last()) == ipld_views(b.drop_last()));
                },
                _ => {},
            }
            lemma_same_children(*self, r);
        }
        r
    }
}

/// Values of the same case whose children stand for the same have children that stand
/// for the same, one by one.
proof fn lemma_same_children(a: Ipld, b: Ipld)
    requires
        ipld_views(a.children()) == ipld_views(b.children()),
    ensures
        a.child_views(a.children().len()) == b.child_views(b.children().len()),
{
    lemma_ipld_views(a.children());
    lemma_ipld_views(b.children());
    a.lemma_child_views(a.children().len());
    b.lemma_child_views(b.children().len());
    assert(a.children().take(a.children().len() as int) =~= a.children());
    assert(b.children().take(b.children().len() as int) =~= b.children());
}

impl Ipld {
    /// The child at position `i`, if there is one.
    fn child(&self, i: usize) -> (r: Option<&Ipld>)
        ensures
            i < self.children().len() ==> r == Some(&self.children()[i as int]),
            i >= self.children().len() ==> r is None,
    {
        match self {
            Ipld::List(l) => if i < l.len() {
                Some(&l[i])
            } else {
                None
            },
            Ipld::StringMap(m) => m.value_at(i),
            Ipld::IntegerMap(m) => m.value_at(i),
            Ipld::Tag(_, inner) => if i == 0 {
                Some(&**inner)
            } else {
                None
            },
            _ => None,
        }
    }

    /// Indexes into an ipld list or map.
    pub fn get<'a, T: Into<IpldIndex<'a>>>(&self, index: T) -> (r: Result<&Self, TypeError>)
        ensures
            (exists|ix: IpldIndex<'a>| #[trigger]
                call_ensures(T::into, (index,), ix) && self.selects(ix@, r)),
    {
        let ix = index.into();
        self.get_at(ix)
    }

    /// Indexes into an ipld list or map with an index that is already in its own form.
    pub fn get_at(&self, index: IpldIndex<'_>) -> (r: Result<&Self, TypeError>)
        ensures
            self.selects(index@, r),
    {
        let mut node: &Ipld = self;
        loop
            invariant
                node.select(index@) == self.select(index@),
            ensures
                !(node is Tag),
            decreases node,
        {
            match node {
                Ipld::Tag(_, inner) => {
                    node = &**inner;
                },
                _ => {
                    break ;
                },
            }
        }
        let found: Option<&Ipld> = match node {
            Ipld::List(l) => {
                let position: Option<usize> = match &index {
                    IpldIndex::List(i) => Some(*i),
                    IpldIndex::MapOwned(key) => read_usize(key.as_str()),
                    IpldIndex::MapRef(key) => read_usize(key),
                };
                match position {
                    Some(i) => if i < l.len() {
                        Some(&l[i])
                    } else {
                        None
                    },
                    None => None,
                }
            },
            Ipld::IntegerMap(m) => {
                let key: Option<i64> = match &index {
                    IpldIndex::List(i) => Some(#[verifier::truncate] (*i as i64)),
                    IpldIndex::MapOwned(key) => read_i64(key.as_str()),
                    IpldIndex::MapRef(key) => read_i64(key),
                };
                match key {
                    Some(k) => m.get(k),
                    None => None,
                }
            },
            Ipld::StringMap(m) => match &index {
                IpldIndex::MapOwned(key) => m.get(key.as_str()),
                IpldIndex::MapRef(key) => m.get(key),
                IpldIndex::List(i) => {
                    let key = write_u64_decimal(*i as u64);
                    m.get(key.as_str())
                },
            },
            _ => None,
        };
        match found {
            Some(v) => Ok(v),
            None => Err(TypeError { expected: TypeErrorType::from(index), found: TypeErrorType::from(node) }),
        }
    }

    /// Destructs an ipld list or map
    pub fn take<'a, T: Into<IpldIndex<'a>>>(self, index: T) -> (r: Result<Self, TypeError>)
        ensures
            (exists|ix: IpldIndex<'a>| #[trigger]
                call_ensures(T::into, (index,), ix) && self.yields(ix@, r)),
    {
        let ix = index.into();
        self.take_at(ix)
    }

    /// Destructs an ipld list or map with an index that is already in its own form. An
    /// element of a list is taken out by moving the last element into its place.
    pub fn take_at(self, index: IpldIndex<'_>) -> (r: Result<Self, TypeError>)
        ensures
            self.yields(index@, r),
    {
        let mut node: Ipld = self;
        loop
            invariant
                node.select(index@) == self.select(index@),
            ensures
                !(node is Tag),
            decreases node,
        {
            match node {
                Ipld::Tag(_, inner) => {
                    node = *inner;
                },
                other => {
                    node = other;
                    break ;
                },
            }
        }
        let found: TypeErrorType = TypeErrorType::from(&node);
        let taken: Option<Ipld> = match node {
            Ipld::List(mut l) => {
                let position: Option<usize> = match &index {
                    IpldIndex::List(i) => Some(*i),
                    IpldIndex::MapOwned(key) => read_usize(key.as_str()),
                    IpldIndex::MapRef(key) => read_usize(key),
                };
                match position {
                    Some(i) => if i < l.len() {
                        Some(l.swap_remove(i))
                    } else {
                        None
                    },
                    None => None,
                }
            },
            Ipld::IntegerMap(mut m) => {
                let key: Option<i64> = match &index {
                    IpldIndex::List(i) => Some(#[verifier::truncate] (*i as i64)),
                    IpldIndex::MapOwned(key) => read_i64(key.as_str()),
                    IpldIndex::MapRef(key) => read_i64(key),
                };
                match key {
                    Some(k) => m.remove(k),
                    None => None,
                }
            },
            Ipld::StringMap(mut m) => match &index {
                IpldIndex::MapOwned(key) => m.remove(key.as_str()),
                IpldIndex::MapRef(key) => m.remove(key),
                IpldIndex::List(i) => {
                    let key = write_u64_decimal(*i as u64);
                    m.remove(key.as_str())
                },
            },
            _ => None,
        };
        match taken {
            Some(v) => Ok(v),
            None => Err(TypeError { expected: TypeErrorType::from(index), found }),
        }
    }

    /// Returns an iterator.
    pub fn iter(&self) -> (it: IpldIter<'_>)
        ensures
            it.remaining() == self.preorder(),
    {
        IpldIter { start: Some(self), stack: Vec::new() }
    }

    /// Returns the references to other blocks.
    pub fn references(&self, set: &mut Vec<Cid>)
        ensures
            final(set)@ == old(set)@ + link_targets(self.preorder()),
    {
        let ghost all = self.preorder();
        let ghost before = set@;
        let ghost mut done: int = 0;
        let mut it = self.iter();
        assert(all.skip(0) =~= all);
        assert(all.subrange(0, 0) =~= Seq::<Ipld>::empty());
        loop
            invariant
                0 <= done <= all.len(),
                it.remaining() == all.skip(done),
                set@ == before + link_targets(all.subrange(0, done)),
            ensures
                set@ == before + link_targets(all),
            decreases all.len() - done,
        {
            match it.next() {
                Some(ipld) => {
                    assert(*ipld == all[done]);
                    assert(all.subrange(0, done + 1).drop_last() =~= all.subrange(0, done));
                    assert(all.skip(done).skip(1) =~= all.skip(done + 1));
                    if let Ipld::Link(cid) = ipld {
                        set.push(*cid);
                    }
                    proof {
                        done = done + 1;
                    }
                },
                None => {
                    assert(all.subrange(0, done) =~= all);
                    break ;
                },
            }
        }
    }
}

/// What is left of a container on the way down: the container, and the position of the
/// child to visit next.
struct Cursor<'a> {
    node: &'a Ipld,
    next: usize,
}

/// The values that the cursors, the innermost last, have yet to yield.
spec fn pending(stack: Seq<Cursor<'_>>) -> Seq<Ipld>
    decreases stack.len(),
{
    if stack.len() == 0 {
        Seq::empty()
    } else {
        stack.last().node.preorder_from(stack.last().next as nat) + pending(stack.drop_last())
    }
}

/// Ipld iterator.
pub struct IpldIter<'a> {
    start: Option<&'a Ipld>,
    stack: Vec<Cursor<'a>>,
}

impl<'a> IpldIter<'a> {
    /// The values that the iterator has yet to yield, in order.
    pub closed spec fn remaining(&self) -> Seq<Ipld> {
        match self.start {
            Some(root) => root.preorder() + pending(self.stack@),
            None => pending(self.stack@),
        }
    }

    /// Yields the next value, if one is left.
    pub fn next(&mut self) -> (r: Option<&'a Ipld>)
        ensures
            old(self).remaining().len() == 0 ==> r is None && final(self).remaining().len() == 0,
            old(self).remaining().len() > 0 ==> r == Some(&old(self).remaining()[0]),
            old(self).remaining().len() > 0 ==> final(self).remaining() == old(self).remaining().skip(1),
    {
        if let Some(root) = self.start {
            let ghost below = pending(self.stack@);
            self.start = None;
            self.stack.push(Cursor { node: root, next: 0 });
            assert(self.stack@.drop_last() =~= old(self).stack@);
            assert(self.remaining() =~= old(self).remaining().skip(1));
            return Some(root);
        }
        loop
            invariant
                self.start is None,
                pending(self.stack@) == old(self).remaining(),
            decreases self.stack.len(),
        {
            let n: usize = self.stack.len();
            if n == 0 {
                return None;
            }
            let node: &'a Ipld = self.stack[n - 1].node;
            let i: usize = self.stack[n - 1].next;
            let ghost below = self.stack@.drop_last();
            let ghost rest = pending(below);
            assert(old(self).remaining() == node.preorder_from(i as nat) + rest);
            let _ = self.stack.pop();
            assert(self.stack@ =~= below);
            match node.child(i) {
                Some(c) => {
                    proof {
                        node.lemma_children_fit();
                    }
                    self.stack.push(Cursor { node, next: i + 1 });
                    assert(self.stack@.drop_last() =~= below);
                    let ghost middle = self.stack@;
                    assert(pending(middle) == node.preorder_from((i + 1) as nat) + rest);
                    match c {
                        Ipld::List(_) | Ipld::StringMap(_) | Ipld::IntegerMap(_) | Ipld::Tag(_, _) => {
                            self.stack.push(Cursor { node: c, next: 0 });
                            assert(self.stack@.drop_last() =~= middle);
                        },
                        _ => {
                            assert(c.preorder_from(0) =~= Seq::<Ipld>::empty());
                        },
                    }
                    assert(pending(self.stack@) =~= c.preorder_from(0) + pending(middle));
                    assert(node.preorder_from(i as nat) == c.preorder() + node.preorder_from(
                        (i + 1) as nat,
                    ));
                    assert(c.preorder() == seq![*c] + c.preorder_from(0));
                    assert(pending(self.stack@) =~= old(self).remaining().skip(1));
                    return Some(c);
                },
                None => {
                    assert(node.preorder_from(i as nat) =~= Seq::<Ipld>::empty());
                    assert(old(self).remaining() =~= rest);
                },
            }
        }
    }
}

/// The links of two runs of values put together are the links of the first run followed
/// by those of the second.
pub proof fn lemma_link_targets_concat(a: Seq<Ipld>, b: Seq<Ipld>)
    ensures
        link_targets(a + b) == link_targets(a) + link_targets(b),
    decreases b.len(),
{
    if b.len() == 0 {
        assert(a + b =~= a);
        assert(link_targets(a) + link_targets(b) =~= link_targets(a));
    } else {
        lemma_link_targets_concat(a, b.drop_last());
        assert((a + b).drop_last() =~= a + b.drop_last());
        assert((a + b).last() == b.last());
        assert(link_targets(a + b) =~= link_targets(a) + link_targets(b));
    }
}

/// Traversal finds every link: the links among the values that a traversal of `v` yields
/// are as many as `v` holds at any depth.
pub proof fn lemma_traversal_finds_every_link(v: Ipld)
    ensures
        link_targets(v.preorder()).len() == v.link_count(),
    decreases v, 1nat, 0nat,
{
    lemma_traversal_finds_links_from(v, 0);
    lemma_link_targets_concat(seq![v], v.preorder_from(0));
    assert(seq![v].drop_last() =~= Seq::<Ipld>::empty());
    assert(link_targets(seq![v].drop_last()) =~= Seq::<Cid>::empty());
}

/// The part of `lemma_traversal_finds_every_link` for the children from position `i` on.
pub proof fn lemma_traversal_finds_links_from(v: Ipld, i: nat)
    ensures
        link_targets(v.preorder_from(i)).len() == v.link_count_from(i),
    decreases v, 0nat, v.children().len() - i,
{
    if i < v.children().len() {
        v.lemma_child_decreases(i as int);
        lemma_traversal_finds_every_link(v.children()[i as int]);
        lemma_traversal_finds_links_from(v, i + 1);
        lemma_link_targets_concat(v.children()[i as int].preorder(), v.preorder_from(i + 1));
    }
}

/// A traversal yields the value itself first, before anything inside it.
pub proof fn lemma_traversal_starts_with_self(v: Ipld)
    ensures
        v.preorder().len() > 0,
        v.preorder()[0] == v,
{
}

/// A list of length `n` can be indexed at `i` if and only if `i < n`, and indexing then
/// selects the element at `i`.
pub proof fn lemma_list_indexing(l: Vec<Ipld>, i: usize)
    ensures
        Ipld::List(l).select(IpldIndexView::List(i)) is Ok <==> i < l@.len(),
        i < l@.len() ==> Ipld::List(l).select(IpldIndexView::List(i)) == Ok::<Ipld, TypeErrorView>(
            l@[i as int],
        ),
{
}

/// Indexing by a position and indexing by the decimal notation of that position agree:
/// both select the same value, or both fail. An integer map is left out for a position
/// above `i64::MAX`, which is the key of no entry when written in decimal.
pub proof fn lemma_position_agrees_with_decimal_key(v: Ipld, i: usize)
    requires
        v.untagged() is IntegerMap ==> i <= i64::MAX,
    ensures
        match (v.select(IpldIndexView::List(i)), v.select(IpldIndexView::Key(decimal(i as nat)))) {
            (Ok(a), Ok(b)) => a == b,
            (Err(_), Err(_)) => true,
            _ => false,
        },
    decreases v,
{
    crate::decimal::lemma_parse_decimal(i as nat);
    match v {
        Ipld::Tag(_, inner) => {
            lemma_position_agrees_with_decimal_key(*inner, i);
        },
        _ => {},
    }
}

} // verus!
