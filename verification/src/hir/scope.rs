use vstd::prelude::*;

use crate::ast::{DeclarationId, Position};
use crate::compile::interner::StringId;

verus! {

#[derive(Clone, Copy, Debug, PartialEq, Eq, Structural)]
pub enum ScopeKind {
    Global,
    File,
    GenericParams,
    FunctionBody,
    CodeBlock,
}

/// A name bound to a declaration.
#[derive(Clone, Copy, Debug)]
pub struct Binding {
    pub name: StringId,
    pub decl: DeclarationId,
}

/// One level of nesting: its kind, where it starts, and the names it binds.
#[derive(Debug)]
pub struct ScopeFrame {
    pub kind: ScopeKind,
    pub start: Position,
    pub symbols: Vec<Binding>,
}

/// A chain of nested scopes, outermost first.
#[derive(Debug)]
pub struct Scope {
    pub frames: Vec<ScopeFrame>,
}

/// A frame as a mathematical value: its kind and its bindings in order.
pub open spec fn frame_view(f: ScopeFrame) -> (ScopeKind, Seq<Binding>) {
    (f.kind, f.symbols@)
}

/// The declaration `name` is bound to in `symbols`: the latest binding wins.
pub open spec fn lookup_in_frame(symbols: Seq<Binding>, name: StringId) -> Option<DeclarationId>
    decreases symbols.len(),
{
    if symbols.len() == 0 {
        None
    } else if symbols.last().name == name {
        Some(symbols.last().decl)
    } else {
        lookup_in_frame(symbols.drop_last(), name)
    }
}

/// The declaration `name` resolves to in `frames`: the innermost frame that
/// binds it wins.
pub open spec fn lookup_in_frames(frames: Seq<(ScopeKind, Seq<Binding>)>, name: StringId) -> Option<
    DeclarationId,
>
    decreases frames.len(),
{
    if frames.len() == 0 {
        None
    } else {
        match lookup_in_frame(frames.last().1, name) {
            Some(d) => Some(d),
            None => lookup_in_frames(frames.drop_last(), name),
        }
    }
}

/// A name found in a frame is bound there: the declaration it resolves to is
/// one of the frame's bindings.
pub proof fn lemma_lookup_in_frame_bound(symbols: Seq<Binding>, name: StringId)
    requires
        lookup_in_frame(symbols, name) is Some,
    ensures
        exists|j: int| 0 <= j < symbols.len() && (#[trigger] symbols[j]).decl == lookup_in_frame(symbols, name)->0,
    decreases symbols.len(),
{
    if symbols.last().name == name {
        assert(symbols[symbols.len() - 1].decl == lookup_in_frame(symbols, name)->0);
    } else {
        lemma_lookup_in_frame_bound(symbols.drop_last(), name);
        let j = choose|j: int| 0 <= j < symbols.drop_last().len() && (#[trigger] symbols.drop_last()[j]).decl
            == lookup_in_frame(symbols.drop_last(), name)->0;
        assert(symbols[j] == symbols.drop_last()[j]);
    }
}

/// A name found in a scope is bound in one of its frames.
pub proof fn lemma_lookup_bound(frames: Seq<(ScopeKind, Seq<Binding>)>, name: StringId)
    requires
        lookup_in_frames(frames, name) is Some,
    ensures
        exists|i: int, j: int|
            0 <= i < frames.len() && 0 <= j < frames[i].1.len() && (#[trigger] frames[i].1[j]).decl == lookup_in_frames(
                frames,
                name,
            )->0,
    decreases frames.len(),
{
    let last = frames.len() - 1;
    match lookup_in_frame(frames.last().1, name) {
        Some(d) => {
            lemma_lookup_in_frame_bound(frames.last().1, name);
            let j = choose|j: int| 0 <= j < frames.last().1.len() && (#[trigger] frames.last().1[j]).decl == d;
            assert(frames[last].1[j].decl == d);
        },
        None => {
            lemma_lookup_bound(frames.drop_last(), name);
            let (i, j) = choose|i: int, j: int|
                0 <= i < frames.drop_last().len() && 0 <= j < frames.drop_last()[i].1.len() && (
                #[trigger] frames.drop_last()[i].1[j]).decl == lookup_in_frames(frames.drop_last(), name)->0;
            assert(frames[i] == frames.drop_last()[i]);
            assert(frames[i].1[j].decl == lookup_in_frames(frames, name)->0);
        },
    }
}

/// The scope `frames` after binding `name` to `decl` in its innermost frame.
pub open spec fn bound(frames: Seq<(ScopeKind, Seq<Binding>)>, name: StringId, decl: DeclarationId) -> Seq<
    (ScopeKind, Seq<Binding>),
> {
    frames.update(frames.len() - 1, (frames.last().0, frames.last().1.push(Binding { name, decl })))
}

/// A name just bound resolves to the declaration it was bound to, whatever
/// it was bound to before and in whichever frame.
pub proof fn law_lookup_after_bind(frames: Seq<(ScopeKind, Seq<Binding>)>, name: StringId, decl: DeclarationId)
    requires
        frames.len() > 0,
    ensures
        lookup_in_frames(bound(frames, name, decl), name) == Some(decl),
{
    let b = bound(frames, name, decl);
    assert(b.last().1.last() == Binding { name, decl });
}

/// Binding a name leaves what every other name resolves to as it was.
pub proof fn law_bind_keeps_other_names(
    frames: Seq<(ScopeKind, Seq<Binding>)>,
    name: StringId,
    decl: DeclarationId,
    other: StringId,
)
    requires
        frames.len() > 0,
        other != name,
    ensures
        lookup_in_frames(bound(frames, name, decl), other) == lookup_in_frames(frames, other),
{
    let b = bound(frames, name, decl);
    assert(b.last().1.drop_last() =~= frames.last().1);
    assert(b.drop_last() =~= frames.drop_last());
}

/// A new, empty innermost frame changes what no name resolves to; leaving
/// it again gives back the scope as it was.
pub proof fn law_enter_keeps_lookup(frames: Seq<(ScopeKind, Seq<Binding>)>, kind: ScopeKind, name: StringId)
    ensures
        lookup_in_frames(frames.push((kind, Seq::<Binding>::empty())), name) == lookup_in_frames(frames, name),
        frames.push((kind, Seq::<Binding>::empty())).drop_last() == frames,
{
    assert(frames.push((kind, Seq::<Binding>::empty())).drop_last() =~= frames);
}

/// The frames as mathematical values.
pub open spec fn frames_view(fs: Seq<ScopeFrame>) -> Seq<(ScopeKind, Seq<Binding>)> {
    fs.map_values(|f: ScopeFrame| frame_view(f))
}

impl View for Scope {
    type V = Seq<(ScopeKind, Seq<Binding>)>;

    open spec fn view(&self) -> Seq<(ScopeKind, Seq<Binding>)> {
        frames_view(self.frames@)
    }
}

fn copy_bindings(symbols: &Vec<Binding>) -> (res: Vec<Binding>)
    ensures
        res@ == symbols@,
{
    let mut res: Vec<Binding> = Vec::new();
    let n = symbols.len();
    let mut i: usize = 0;
    while i < n
        invariant
            n == symbols.len(),
            i <= n,
            res@ == symbols@.take(i as int),
        decreases n - i,
    {
        res.push(symbols[i]);
        i = i + 1;
        assert(res@ =~= symbols@.take(i as int));
    }
    assert(symbols@.take(n as int) =~= symbols@);
    res
}

impl Scope {
    /// A scope with a single, empty frame.
    pub fn new_root(kind: ScopeKind, start: Position) -> (res: Self)
        ensures
            res@ == seq![(kind, Seq::<Binding>::empty())],
    {
        let mut frames: Vec<ScopeFrame> = Vec::new();
        frames.push(ScopeFrame { kind, start, symbols: Vec::new() });
        let res = Scope { frames };
        assert(res@ =~= seq![(kind, Seq::<Binding>::empty())]);
        res
    }

    /// An equal copy of the scope's first `n` frames.
    fn copy_prefix(&self, n: usize) -> (res: Self)
        requires
            n <= self@.len(),
        ensures
            res@ == self@.take(n as int),
    {
        let mut frames: Vec<ScopeFrame> = Vec::new();
        let mut i: usize = 0;
        while i < n
            invariant
                n <= self.frames.len(),
                i <= n,
                frames_view(frames@) == self@.take(i as int),
            decreases n - i,
        {
            let f = &self.frames[i];
            let ghost before = frames@;
            let nf = ScopeFrame { kind: f.kind, start: f.start, symbols: copy_bindings(&f.symbols) };
            assert(frame_view(nf) == self@[i as int]);
            frames.push(nf);
            assert(frames@ == before.push(nf));
            assert(before.len() == frames_view(before).len());
            i = i + 1;
            assert(frames_view(frames@) =~= self@.take(i as int)) by {
                assert forall|k: int| 0 <= k < i implies #[trigger] frames_view(frames@)[k] == self@.take(i as int)[k] by {
                    if k < i - 1 {
                        assert(frames@[k] == before[k]);
                        assert(frames_view(before)[k] == self@.take(i - 1)[k]);
                    }
                }
            }
        }
        Scope { frames }
    }

    /// An equal copy of the scope.
    pub fn copy(&self) -> (res: Self)
        ensures
            res@ == self@,
    {
        let res = self.copy_prefix(self.frames.len());
        assert(self@.take(self@.len() as int) =~= self@);
        res
    }

    /// The scope extended with a new, empty innermost frame.
    pub fn enter(&self, kind: ScopeKind, start: Position) -> (res: Self)
        ensures
            res@ == self@.push((kind, Seq::<Binding>::empty())),
    {
        let mut res = self.copy();
        res.frames.push(ScopeFrame { kind, start, symbols: Vec::new() });
        assert(res@ =~= self@.push((kind, Seq::<Binding>::empty())));
        res
    }

    /// The kind of the innermost frame.
    pub fn kind(&self) -> (k: ScopeKind)
        requires
            self@.len() > 0,
        ensures
            k == self@.last().0,
    {
        self.frames[self.frames.len() - 1].kind
    }

    /// The enclosing scope, if the innermost frame has one around it.
    pub fn parent(&self) -> (res: Option<Scope>)
        ensures
            match res {
                Some(p) => self@.len() > 1 && p@ == self@.drop_last(),
                None => self@.len() <= 1,
            },
    {
        if self.frames.len() <= 1 {
            None
        } else {
            let p = self.copy_prefix(self.frames.len() - 1);
            assert(self@.take(self@.len() - 1) =~= self@.drop_last());
            Some(p)
        }
    }

    /// Whether the innermost frame is a file's scope.
    pub fn is_file_scope(&self) -> (res: bool)
        ensures
            res == (self@.len() > 0 && self@.last().0 == ScopeKind::File),
    {
        self.frames.len() > 0 && self.frames[self.frames.len() - 1].kind == ScopeKind::File
    }

    /// Binds `name` to `decl` in the innermost frame.
    pub fn map_name_to_symbol(&mut self, name: StringId, decl: DeclarationId)
        requires
            old(self)@.len() > 0,
        ensures
            final(self)@ == bound(old(self)@, name, decl),
    {
        let last = self.frames.len() - 1;
        let ghost before = self.frames@;
        let mut f = self.frames.remove(last);
        f.symbols.push(Binding { name, decl });
        self.frames.push(f);
        assert(self@ =~= old(self)@.update(
            old(self)@.len() - 1,
            (old(self)@.last().0, old(self)@.last().1.push(Binding { name, decl })),
        )) by {
            assert(self.frames@ =~= before.update(last as int, self.frames@.last()));
        }
    }

    /// The declaration `name` resolves to, innermost binding first.
    #[verifier::loop_isolation(false)]
    pub fn lookup(&self, name: StringId) -> (res: Option<DeclarationId>)
        ensures
            res == lookup_in_frames(self@, name),
    {
        let mut i: usize = self.frames.len();
        assert(self@.take(i as int) =~= self@);
        while i > 0
            invariant
                i <= self.frames.len(),
                lookup_in_frames(self@, name) == lookup_in_frames(self@.take(i as int), name),
            decreases i,
        {
            let f = &self.frames[i - 1];
            let ghost frames = self@.take(i as int);
            assert(frames.last() == frame_view(*f));
            assert(frames.drop_last() =~= self@.take(i - 1));
            let mut j: usize = f.symbols.len();
            assert(f.symbols@.take(j as int) =~= f.symbols@);
            while j > 0
                invariant
                    j <= f.symbols.len(),
                    lookup_in_frame(f.symbols@, name) == lookup_in_frame(f.symbols@.take(j as int), name),
                decreases j,
            {
                let b = f.symbols[j - 1];
                assert(f.symbols@.take(j as int).drop_last() =~= f.symbols@.take(j - 1));
                if b.name.0 == name.0 {
                    assert(f.symbols@.take(j as int).last() == b);
                    return Some(b.decl);
                }
                j = j - 1;
            }
            assert(f.symbols@.take(0) =~= Seq::<Binding>::empty());
            i = i - 1;
        }
        assert(self@.take(0) =~= Seq::<(ScopeKind, Seq<Binding>)>::empty());
        None
    }
}

} // verus!
