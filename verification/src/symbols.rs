//! Declared variables and the chain of lexical scopes that holds them.

use vstd::prelude::*;
use crate::lexer::{TypeBase, WordBase};

verus! {

/// A declared variable, as a plain value.
pub struct IdView {
    /// Tag and spelling of the declaring word.
    pub word: (u32, Seq<char>),
    /// Tag and spelling of the declared type's name.
    pub type_word: (u32, Seq<char>),
    /// Bytes that one value of the declared type takes.
    pub width: usize,
    /// Where the variable lies in the storage of its block.
    pub offset: u64,
}

/// A declared variable: the word that declares it, its type, and its byte
/// offset within the storage of the block that declares it.
#[derive(Debug, PartialEq, Eq)]
pub struct Id {
    pub word: WordBase,
    pub ty: TypeBase,
    pub offset: u64,
}

impl View for Id {
    type V = IdView;

    open spec fn view(&self) -> IdView {
        IdView {
            word: self.word@,
            type_word: self.ty.word@,
            width: self.ty.width,
            offset: self.offset,
        }
    }
}

impl Id {
    pub fn new(word: WordBase, ty: TypeBase, offset: u64) -> (id: Id)
        ensures
            id@ == (IdView {
                word: word@,
                type_word: ty.word@,
                width: ty.width,
                offset,
            }),
    {
        Id { word, ty, offset }
    }
}

impl Clone for Id {
    fn clone(&self) -> (id: Id)
        ensures
            id@ == self@,
    {
        Id { word: self.word.clone(), ty: self.ty.clone(), offset: self.offset }
    }
}

/// One block's declarations: from a word, as tag and spelling, to what it
/// declares.
pub type Frame = Map<(u32, Seq<char>), IdView>;

/// What `w` names in the scopes `frames`, innermost first: the declaration
/// in the first scope that has one.
pub open spec fn resolve(frames: Seq<Frame>, w: (u32, Seq<char>)) -> Option<IdView>
    decreases frames.len(),
{
    if frames.len() == 0 {
        None
    } else if frames[0].contains_key(w) {
        Some(frames[0][w])
    } else {
        resolve(frames.skip(1), w)
    }
}

/// The scopes after `id` was declared under `key` in the innermost one.
pub open spec fn declare(fr: Seq<Frame>, key: (u32, Seq<char>), id: IdView) -> Seq<Frame> {
    fr.update(0, fr[0].insert(key, id))
}

/// The scopes inside a new, empty innermost scope.
pub open spec fn enter(fr: Seq<Frame>) -> Seq<Frame> {
    seq![Frame::empty()] + fr
}

/// A declaration in a nested block shadows the one outside: inside the
/// block the word names the inner declaration, every other word names what
/// it named outside, and when the block is left the scopes are those outside
/// it, so the word names the outer declaration again.
pub proof fn lemma_shadow_and_restore(fr: Seq<Frame>, w: (u32, Seq<char>), inner: IdView)
    ensures
        resolve(declare(enter(fr), w, inner), w) == Some(inner),
        forall|v: (u32, Seq<char>)|
            v != w ==> #[trigger] resolve(declare(enter(fr), w, inner), v) == resolve(fr, v),
        declare(enter(fr), w, inner).skip(1) == fr,
{
    let nested = declare(enter(fr), w, inner);
    assert(nested.skip(1) =~= fr);
}

/// A declaration replaces an earlier one of the same word in the same
/// scope, and changes nothing in the scopes around it.
pub proof fn lemma_redeclare(fr: Seq<Frame>, w: (u32, Seq<char>), first: IdView, second: IdView)
    requires
        fr.len() >= 1,
    ensures
        declare(declare(fr, w, first), w, second) == declare(fr, w, second),
        declare(fr, w, second).skip(1) == fr.skip(1),
        resolve(declare(fr, w, second), w) == Some(second),
{
    assert(declare(declare(fr, w, first), w, second) =~= declare(fr, w, second)) by {
        assert(fr[0].insert(w, first).insert(w, second) =~= fr[0].insert(w, second));
    }
    assert(declare(fr, w, second).skip(1) =~= fr.skip(1));
}

/// A word names nothing exactly where no open scope declares it.
pub proof fn lemma_resolve_none(fr: Seq<Frame>, w: (u32, Seq<char>))
    ensures
        resolve(fr, w).is_none() <==> forall|i: int|
            0 <= i < fr.len() ==> !(#[trigger] fr[i]).contains_key(w),
        resolve(fr, w) matches Some(id) ==> exists|i: int|
            0 <= i < fr.len() && #[trigger] fr[i].contains_key(w) && fr[i][w] == id,
    decreases fr.len(),
{
    if fr.len() > 0 {
        if !fr[0].contains_key(w) {
            lemma_resolve_none(fr.skip(1), w);
            if resolve(fr, w).is_none() {
                assert forall|i: int| 0 <= i < fr.len() implies !(#[trigger] fr[i]).contains_key(w) by {
                    if i > 0 {
                        assert(fr[i] == fr.skip(1)[i - 1]);
                    }
                }
            } else {
                let id = resolve(fr, w)->Some_0;
                let rest = fr.skip(1);
                let j = choose|j: int|
                    0 <= j < rest.len() && #[trigger] rest[j].contains_key(w) && rest[j][w] == id;
                assert(fr[j + 1] == fr.skip(1)[j]);
                assert(fr[j + 1].contains_key(w));
            }
        }
    }
}

/// The declarations that a list of entries makes: a later entry for a word
/// replaces an earlier one.
pub open spec fn frame_of(entries: Seq<((u32, Seq<char>), IdView)>) -> Frame
    decreases entries.len(),
{
    if entries.len() == 0 {
        Map::empty()
    } else {
        frame_of(entries.drop_last()).insert(entries.last().0, entries.last().1)
    }
}

/// A scope, linked to the scope that encloses it.
pub struct Env {
    table: Vec<(WordBase, Id)>,
    prev: Option<Box<Env>>,
}

/// The scopes of a chain, innermost first; no chain has none.
pub open spec fn chain(top: Option<Box<Env>>) -> Seq<Frame> {
    match top {
        Some(e) => e.frames(),
        None => Seq::empty(),
    }
}

impl Env {
    pub closed spec fn entries(&self) -> Seq<((u32, Seq<char>), IdView)> {
        Seq::new(self.table@.len(), |i: int| (self.table@[i].0@, self.table@[i].1@))
    }

    /// This scope and those that enclose it, innermost first.
    pub closed spec fn frames(&self) -> Seq<Frame>
        decreases self,
    {
        seq![frame_of(self.entries())] + match self.prev {
            Some(e) => e.frames(),
            None => Seq::empty(),
        }
    }

    /// A new, empty scope inside the chain `n`.
    pub fn new(n: Option<Box<Env>>) -> (e: Env)
        ensures
            e.frames() == enter(chain(n)),
    {
        let e = Env { table: Vec::new(), prev: n };
        assert(e.entries() =~= Seq::empty());
        e
    }

    /// Declares `w` in this scope as `i`. A declaration of the same word in
    /// this scope is replaced; the enclosing scopes stay as they are.
    pub fn put(&mut self, w: WordBase, i: Id)
        ensures
            final(self).frames() == declare(old(self).frames(), w@, i@),
    {
        let ghost key = w@;
        let ghost val = i@;
        self.table.push((w, i));
        proof {
            assert(self.entries().drop_last() =~= old(self).entries());
            assert(self.entries().last() == (key, val));
            assert(self.frames() =~= old(self).frames().update(
                0,
                old(self).frames()[0].insert(key, val),
            ));
        }
    }

    /// The declaration of `w` in this scope alone.
    fn local(&self, w: &WordBase) -> (r: Option<Id>)
        ensures
            match r {
                Some(id) => self.frames()[0].contains_key(w@) && id@ == self.frames()[0][w@],
                None => !self.frames()[0].contains_key(w@),
            },
    {
        let mut i: usize = self.table.len();
        let ghost all = self.entries();
        assert(all.subrange(0, i as int) =~= all);
        while i > 0
            invariant
                i <= self.table.len(),
                all == self.entries(),
                !frame_of(all).contains_key(w@) <==> !frame_of(all.subrange(0, i as int)).contains_key(w@),
                frame_of(all).contains_key(w@) ==> frame_of(all)[w@] == frame_of(
                    all.subrange(0, i as int),
                )[w@],
            decreases i,
        {
            i -= 1;
            proof {
                let cur = all.subrange(0, i + 1);
                assert(cur.drop_last() =~= all.subrange(0, i as int));
                assert(cur.last() == all[i as int]);
            }
            if self.table[i].0.same(w) {
                return Some(self.table[i].1.clone());
            }
        }
        None
    }

    /// What `w` names here: its declaration in the innermost scope that has
    /// one, and nothing where no scope of the chain declares it.
    pub fn get(&self, w: &WordBase) -> (r: Option<Id>)
        ensures
            match resolve(self.frames(), w@) {
                Some(v) => r matches Some(id) && id@ == v,
                None => r.is_none(),
            },
        decreases self,
    {
        proof {
            assert(self.frames().skip(1) =~= chain(self.prev));
            assert(self.frames().len() >= 1);
            assert(resolve(Seq::<Frame>::empty(), w@).is_none());
        }
        match self.local(w) {
            Some(id) => Some(id),
            None => match &self.prev {
                Some(e) => e.get(w),
                None => None,
            },
        }
    }

    /// Leaves this scope: gives the chain that encloses it.
    pub fn leave(self) -> (n: Option<Box<Env>>)
        ensures
            chain(n) == self.frames().skip(1),
    {
        assert(self.frames().skip(1) =~= chain(self.prev));
        self.prev
    }
}

} // verus!
