use vstd::prelude::*;
use crate::tree::nodes::{DEnum, DModule, DStruct, DUnion};

verus! {

/// Values that can be added up into an accumulator.
pub trait Accumulate: Sized {
    /// The sum does not overflow.
    spec fn can_add(self, rhs: Self) -> bool;

    spec fn spec_add(self, rhs: Self) -> Self;

    fn add_assign(&mut self, rhs: Self)
        requires
            old(self).can_add(rhs),
        ensures
            *final(self) == old(self).spec_add(rhs),
    ;
}

/// Add `new` into the accumulator and return it.
pub fn acc_sum<T: Accumulate>(acc: T, new: T) -> (r: T)
    requires
        acc.can_add(new),
    ensures
        r == acc.spec_add(new),
{
    let mut acc = acc;
    acc.add_assign(new);
    acc
}

/// Adding the values in order, from the accumulator on, never overflows.
pub open spec fn fold_fits<T: Accumulate>(acc: T, s: Seq<T>) -> bool
    decreases s.len(),
{
    if s.len() == 0 {
        true
    } else {
        fold_fits(acc, s.drop_last()) && fold_sum(acc, s.drop_last()).can_add(s.last())
    }
}

/// The accumulator after adding the values in order.
pub open spec fn fold_sum<T: Accumulate>(acc: T, s: Seq<T>) -> T
    decreases s.len(),
{
    if s.len() == 0 {
        acc
    } else {
        fold_sum(acc, s.drop_last()).spec_add(s.last())
    }
}

/// The number of public items of each kind in a module.
#[derive(Clone, Copy, Debug, PartialEq, Eq)]
pub struct ItemCount {
    pub modules: u32,
    pub structs: u32,
    pub unions: u32,
    pub enums: u32,
    pub functions: u32,
    pub traits: u32,
    pub constants: u32,
    pub statics: u32,
    pub type_alias: u32,
    pub macros_decl: u32,
    pub macros_func: u32,
    pub macros_attr: u32,
    pub macros_derv: u32,
}

impl ItemCount {
    /// Field-wise sum.
    pub fn add(self, rhs: Self) -> (r: Self)
        requires
            self.can_add(rhs),
        ensures
            r == self.spec_add(rhs),
    {
        ItemCount {
            modules: self.modules + rhs.modules,
            structs: self.structs + rhs.structs,
            unions: self.unions + rhs.unions,
            enums: self.enums + rhs.enums,
            functions: self.functions + rhs.functions,
            traits: self.traits + rhs.traits,
            constants: self.constants + rhs.constants,
            statics: self.statics + rhs.statics,
            type_alias: self.type_alias + rhs.type_alias,
            macros_decl: self.macros_decl + rhs.macros_decl,
            macros_func: self.macros_func + rhs.macros_func,
            macros_attr: self.macros_attr + rhs.macros_attr,
            macros_derv: self.macros_derv + rhs.macros_derv,
        }
    }
}

impl Accumulate for ItemCount {
    open spec fn can_add(self, rhs: Self) -> bool {
        &&& self.modules + rhs.modules <= u32::MAX
        &&& self.structs + rhs.structs <= u32::MAX
        &&& self.unions + rhs.unions <= u32::MAX
        &&& self.enums + rhs.enums <= u32::MAX
        &&& self.functions + rhs.functions <= u32::MAX
        &&& self.traits + rhs.traits <= u32::MAX
        &&& self.constants + rhs.constants <= u32::MAX
        &&& self.statics + rhs.statics <= u32::MAX
        &&& self.type_alias + rhs.type_alias <= u32::MAX
        &&& self.macros_decl + rhs.macros_decl <= u32::MAX
        &&& self.macros_func + rhs.macros_func <= u32::MAX
        &&& self.macros_attr + rhs.macros_attr <= u32::MAX
        &&& self.macros_derv + rhs.macros_derv <= u32::MAX
    }

    open spec fn spec_add(self, rhs: Self) -> Self {
        ItemCount {
            modules: (self.modules + rhs.modules) as u32,
            structs: (self.structs + rhs.structs) as u32,
            unions: (self.unions + rhs.unions) as u32,
            enums: (self.enums + rhs.enums) as u32,
            functions: (self.functions + rhs.functions) as u32,
            traits: (self.traits + rhs.traits) as u32,
            constants: (self.constants + rhs.constants) as u32,
            statics: (self.statics + rhs.statics) as u32,
            type_alias: (self.type_alias + rhs.type_alias) as u32,
            macros_decl: (self.macros_decl + rhs.macros_decl) as u32,
            macros_func: (self.macros_func + rhs.macros_func) as u32,
            macros_attr: (self.macros_attr + rhs.macros_attr) as u32,
            macros_derv: (self.macros_derv + rhs.macros_derv) as u32,
        }
    }

    fn add_assign(&mut self, rhs: Self) {
        self.modules = self.modules + rhs.modules;
        self.structs = self.structs + rhs.structs;
        self.unions = self.unions + rhs.unions;
        self.enums = self.enums + rhs.enums;
        self.functions = self.functions + rhs.functions;
        self.traits = self.traits + rhs.traits;
        self.constants = self.constants + rhs.constants;
        self.statics = self.statics + rhs.statics;
        self.type_alias = self.type_alias + rhs.type_alias;
        self.macros_decl = self.macros_decl + rhs.macros_decl;
        self.macros_func = self.macros_func + rhs.macros_func;
        self.macros_attr = self.macros_attr + rhs.macros_attr;
        self.macros_derv = self.macros_derv + rhs.macros_derv;
    }
}

/// Whether impl blocks are inherent ones, trait ones, or both.
///
/// Adding two of the same kind gives that kind; adding different kinds gives `Both`.
#[derive(Clone, Copy, Debug, PartialEq, Eq)]
pub enum ImplKind {
    Inherent,
    Trait,
    Both,
}

impl ImplKind {
    pub open spec fn spec_add(self, rhs: Self) -> Self {
        match (self, rhs) {
            (ImplKind::Inherent, ImplKind::Inherent) => ImplKind::Inherent,
            (ImplKind::Trait, ImplKind::Trait) => ImplKind::Trait,
            _ => ImplKind::Both,
        }
    }

    pub fn add(self, rhs: Self) -> (r: Self)
        ensures
            r == self.spec_add(rhs),
    {
        match (self, rhs) {
            (ImplKind::Inherent, ImplKind::Inherent) => ImplKind::Inherent,
            (ImplKind::Trait, ImplKind::Trait) => ImplKind::Trait,
            _ => ImplKind::Both,
        }
    }

    pub fn add_assign(&mut self, rhs: Self)
        ensures
            *final(self) == old(self).spec_add(rhs),
    {
        *self = self.add(rhs);
    }
}

/// The number of impl blocks on structs, enums and unions.
#[derive(Clone, Copy, Debug, PartialEq, Eq)]
pub struct ImplCount {
    pub structs: u32,
    pub enums: u32,
    pub unions: u32,
    pub kind: ImplKind,
    pub total: u32,
}

impl ImplCount {
    pub fn add(self, rhs: Self) -> (r: Self)
        requires
            self.can_add(rhs),
        ensures
            r == self.spec_add(rhs),
    {
        ImplCount {
            structs: self.structs + rhs.structs,
            enums: self.enums + rhs.enums,
            unions: self.unions + rhs.unions,
            kind: self.kind.add(rhs.kind),
            total: self.total + rhs.total,
        }
    }
}

impl Accumulate for ImplCount {
    open spec fn can_add(self, rhs: Self) -> bool {
        &&& self.structs + rhs.structs <= u32::MAX
        &&& self.enums + rhs.enums <= u32::MAX
        &&& self.unions + rhs.unions <= u32::MAX
        &&& self.total + rhs.total <= u32::MAX
    }

    open spec fn spec_add(self, rhs: Self) -> Self {
        ImplCount {
            structs: (self.structs + rhs.structs) as u32,
            enums: (self.enums + rhs.enums) as u32,
            unions: (self.unions + rhs.unions) as u32,
            kind: self.kind.spec_add(rhs.kind),
            total: (self.total + rhs.total) as u32,
        }
    }

    fn add_assign(&mut self, rhs: Self) {
        self.structs = self.structs + rhs.structs;
        self.enums = self.enums + rhs.enums;
        self.unions = self.unions + rhs.unions;
        self.kind.add_assign(rhs.kind);
        self.total = self.total + rhs.total;
    }
}

/// Count the impl **blocks**.
#[derive(Clone, Copy, Debug, PartialEq, Eq)]
pub struct ImplCounts {
    pub inherent: ImplCount,
    pub trait_: ImplCount,
    pub total: ImplCount,
}

impl ImplCounts {
    pub open spec fn spec_empty() -> ImplCounts {
        ImplCounts {
            inherent: ImplCount { structs: 0, enums: 0, unions: 0, kind: ImplKind::Inherent, total: 0 },
            trait_: ImplCount { structs: 0, enums: 0, unions: 0, kind: ImplKind::Trait, total: 0 },
            total: ImplCount { structs: 0, enums: 0, unions: 0, kind: ImplKind::Both, total: 0 },
        }
    }

    /// No impl blocks.
    pub fn empty() -> (r: ImplCounts)
        ensures
            r == ImplCounts::spec_empty(),
    {
        ImplCounts {
            inherent: ImplCount { structs: 0, enums: 0, unions: 0, kind: ImplKind::Inherent, total: 0 },
            trait_: ImplCount { structs: 0, enums: 0, unions: 0, kind: ImplKind::Trait, total: 0 },
            total: ImplCount { structs: 0, enums: 0, unions: 0, kind: ImplKind::Both, total: 0 },
        }
    }

    /// The inherent, trait and total counts add up one by one.
    pub fn add(self, rhs: Self) -> (r: Self)
        requires
            self.can_add(rhs),
        ensures
            r == self.spec_add(rhs),
    {
        ImplCounts {
            inherent: self.inherent.add(rhs.inherent),
            trait_: self.trait_.add(rhs.trait_),
            total: self.total.add(rhs.total),
        }
    }
}

impl Accumulate for ImplCounts {
    open spec fn can_add(self, rhs: Self) -> bool {
        &&& self.inherent.can_add(rhs.inherent)
        &&& self.trait_.can_add(rhs.trait_)
        &&& self.total.can_add(rhs.total)
    }

    open spec fn spec_add(self, rhs: Self) -> Self {
        ImplCounts {
            inherent: self.inherent.spec_add(rhs.inherent),
            trait_: self.trait_.spec_add(rhs.trait_),
            total: self.total.spec_add(rhs.total),
        }
    }

    fn add_assign(&mut self, rhs: Self) {
        self.inherent.add_assign(rhs.inherent);
        self.trait_.add_assign(rhs.trait_);
        self.total.add_assign(rhs.total);
    }
}

/// The total of a sequence of numbers.
pub open spec fn seq_sum(s: Seq<int>) -> int
    decreases s.len(),
{
    if s.len() == 0 {
        0
    } else {
        seq_sum(s.drop_last()) + s.last()
    }
}

proof fn lemma_seq_sum_push(s: Seq<int>, x: int)
    ensures
        seq_sum(s.push(x)) == seq_sum(s) + x,
{
    assert(s.push(x).drop_last() == s);
}

proof fn lemma_seq_sum_nonneg(s: Seq<int>)
    requires
        forall|i: int| 0 <= i < s.len() ==> s[i] >= 0,
    ensures
        seq_sum(s) >= 0,
    decreases s.len(),
{
    if s.len() > 0 {
        lemma_seq_sum_nonneg(s.drop_last());
    }
}

pub open spec fn struct_inherent(s: Seq<DStruct>) -> Seq<int> {
    s.map_values(|x: DStruct| x.impls.inherent@.len() as int)
}

pub open spec fn struct_trait(s: Seq<DStruct>) -> Seq<int> {
    s.map_values(|x: DStruct| x.impls.trait_@.len() as int)
}

pub open spec fn enum_inherent(s: Seq<DEnum>) -> Seq<int> {
    s.map_values(|x: DEnum| x.impls.inherent@.len() as int)
}

pub open spec fn enum_trait(s: Seq<DEnum>) -> Seq<int> {
    s.map_values(|x: DEnum| x.impls.trait_@.len() as int)
}

pub open spec fn union_inherent(s: Seq<DUnion>) -> Seq<int> {
    s.map_values(|x: DUnion| x.impls.inherent@.len() as int)
}

pub open spec fn union_trait(s: Seq<DUnion>) -> Seq<int> {
    s.map_values(|x: DUnion| x.impls.trait_@.len() as int)
}

/// The values that `f` gives of every module of the subtree: the module's own first, then
/// each submodule's subtree in order.
pub open spec fn subtree_map<T>(m: DModule, f: spec_fn(DModule) -> T) -> Seq<T>
    decreases m,
{
    seq![f(m)] + forest_map(m.modules@, f)
}

/// The subtree values of each module in turn.
pub open spec fn forest_map<T>(ms: Seq<DModule>, f: spec_fn(DModule) -> T) -> Seq<T>
    decreases ms,
{
    if ms.len() == 0 {
        seq![]
    } else {
        forest_map(ms.subrange(0, ms.len() - 1), f) + subtree_map(ms[ms.len() - 1], f)
    }
}

/// Every module of the subtree satisfies `p`.
pub open spec fn subtree_all(m: DModule, p: spec_fn(DModule) -> bool) -> bool
    decreases m,
{
    p(m) && forest_all(m.modules@, p)
}

pub open spec fn forest_all(ms: Seq<DModule>, p: spec_fn(DModule) -> bool) -> bool
    decreases ms,
{
    if ms.len() == 0 {
        true
    } else {
        forest_all(ms.subrange(0, ms.len() - 1), p) && subtree_all(ms[ms.len() - 1], p)
    }
}

/// A module's own item counts.
pub open spec fn items_of() -> spec_fn(DModule) -> ItemCount {
    |m: DModule| m.spec_current_items_counts()
}

/// A module's own impl counts.
pub open spec fn impls_of() -> spec_fn(DModule) -> ImplCounts {
    |m: DModule| m.spec_current_impls_counts()
}

/// The module's item counts fit in `u32`.
pub open spec fn items_fit_in() -> spec_fn(DModule) -> bool {
    |m: DModule| m.counts_fit()
}

/// The module's impl counts fit in `usize`, and its inherent and trait counts add up within
/// `u32`.
pub open spec fn impls_fit_in() -> spec_fn(DModule) -> bool {
    |m: DModule|
        m.impls_fit() && m.spec_current_impls_counts().inherent.can_add(
            m.spec_current_impls_counts().trait_,
        )
}

proof fn lemma_fold_concat<T: Accumulate>(acc: T, a: Seq<T>, b: Seq<T>)
    ensures
        fold_sum(acc, a + b) == fold_sum(fold_sum(acc, a), b),
        fold_fits(acc, a + b) == (fold_fits(acc, a) && fold_fits(fold_sum(acc, a), b)),
    decreases b.len(),
{
    if b.len() == 0 {
        assert(a + b == a);
    } else {
        assert((a + b).drop_last() == a + b.drop_last());
        assert((a + b).last() == b.last());
        lemma_fold_concat(acc, a, b.drop_last());
    }
}

proof fn lemma_forest_step<T>(ms: Seq<DModule>, i: int, f: spec_fn(DModule) -> T, p: spec_fn(DModule) -> bool)
    requires
        0 <= i < ms.len(),
    ensures
        forest_map(ms.subrange(0, i + 1), f) == forest_map(ms.subrange(0, i), f) + subtree_map(ms[i], f),
        forest_all(ms.subrange(0, i + 1), p) == (forest_all(ms.subrange(0, i), p) && subtree_all(ms[i], p)),
{
    assert(ms.subrange(0, i + 1).subrange(0, i) == ms.subrange(0, i));
}

proof fn lemma_forest_all_at(ms: Seq<DModule>, i: int, p: spec_fn(DModule) -> bool)
    requires
        0 <= i < ms.len(),
        forest_all(ms, p),
    ensures
        subtree_all(ms[i], p),
    decreases ms.len(),
{
    if i < ms.len() - 1 {
        lemma_forest_all_at(ms.subrange(0, ms.len() - 1), i, p);
    }
}

/// The subtree values of the modules from `k` on.
spec fn forest_suffix<T>(ms: Seq<DModule>, k: int, f: spec_fn(DModule) -> T) -> Seq<T>
    decreases ms.len() - k,
{
    if k < 0 || k >= ms.len() {
        seq![]
    } else {
        subtree_map(ms[k], f) + forest_suffix(ms, k + 1, f)
    }
}

proof fn lemma_forest_prefix<T>(ms: Seq<DModule>, k: int, f: spec_fn(DModule) -> T)
    requires
        0 <= k <= ms.len(),
    ensures
        forest_map(ms, f) == forest_map(ms.subrange(0, k), f) + forest_suffix(ms, k, f),
    decreases ms.len() - k,
{
    if k == ms.len() {
        assert(ms.subrange(0, k) == ms);
        assert(forest_map(ms, f) + seq![] == forest_map(ms, f));
    } else {
        lemma_forest_prefix(ms, k + 1, f);
        lemma_forest_step(ms, k, f, |m: DModule| true);
        let a = forest_map(ms.subrange(0, k), f);
        let b = subtree_map(ms[k], f);
        let c = forest_suffix(ms, k + 1, f);
        assert((a + b) + c == a + (b + c));
    }
}

/// Adding the `i`-th module's own value and then its submodules' subtree values to the sum so
/// far is adding its subtree values; the fold over the whole forest fitting means each step
/// fits.
proof fn lemma_forest_sum_step<T: Accumulate>(acc0: T, ms: Seq<DModule>, i: int, f: spec_fn(DModule) -> T)
    requires
        0 <= i < ms.len(),
        fold_fits(acc0, forest_map(ms, f)),
    ensures
        ({
            let acc = fold_sum(acc0, forest_map(ms.subrange(0, i), f));
            &&& acc.can_add(f(ms[i]))
            &&& fold_fits(acc.spec_add(f(ms[i])), forest_map(ms[i].modules@, f))
            &&& fold_sum(acc.spec_add(f(ms[i])), forest_map(ms[i].modules@, f)) == fold_sum(
                acc0,
                forest_map(ms.subrange(0, i + 1), f),
            )
        }),
{
    let pre = forest_map(ms.subrange(0, i), f);
    let own = seq![f(ms[i])];
    let rest = forest_map(ms[i].modules@, f);
    lemma_forest_step(ms, i, f, |m: DModule| true);
    lemma_forest_prefix(ms, i + 1, f);
    lemma_fold_concat(acc0, forest_map(ms.subrange(0, i + 1), f), forest_suffix(ms, i + 1, f));
    assert(subtree_map(ms[i], f) == own + rest);
    assert(pre + (own + rest) == (pre + own) + rest);
    lemma_fold_concat(acc0, pre + own, rest);
    lemma_fold_concat(acc0, pre, own);
    assert(own.drop_last() == Seq::<T>::empty());
}

/// Add the subtree item counts of each submodule of `m` to `acc`, in order.
fn forest_items_sum(m: &DModule, acc: ItemCount) -> (r: ItemCount)
    requires
        forest_all(m.modules@, items_fit_in()),
        fold_fits(acc, forest_map(m.modules@, items_of())),
    ensures
        r == fold_sum(acc, forest_map(m.modules@, items_of())),
    decreases *m,
{
    let ghost ms = m.modules@;
    let ghost f = items_of();
    let ghost acc0 = acc;
    let mut acc = acc;
    let n = m.modules.len();
    let mut i: usize = 0;
    assert(ms.subrange(0, 0) == Seq::<DModule>::empty());
    while i < n
        invariant
            n == ms.len(),
            ms == m.modules@,
            i <= n,
            forest_all(ms, items_fit_in()),
            fold_fits(acc0, forest_map(ms, f)),
            acc == fold_sum(acc0, forest_map(ms.subrange(0, i as int), f)),
            f == items_of(),
        decreases n - i,
    {
        let child = &m.modules[i];
        proof {
            lemma_forest_all_at(ms, i as int, items_fit_in());
            lemma_forest_sum_step(acc0, ms, i as int, f);
            assert(decreases_to!(*m => m.modules));
        }
        let c = child.current_items_counts();
        acc = acc_sum(acc, c);
        acc = forest_items_sum(child, acc);
        i = i + 1;
    }
    assert(ms.subrange(0, n as int) == ms);
    acc
}

/// Add the subtree impl counts of each submodule of `m` to `acc`, in order.
fn forest_impls_sum(m: &DModule, acc: ImplCounts) -> (r: ImplCounts)
    requires
        forest_all(m.modules@, impls_fit_in()),
        fold_fits(acc, forest_map(m.modules@, impls_of())),
    ensures
        r == fold_sum(acc, forest_map(m.modules@, impls_of())),
    decreases *m,
{
    let ghost ms = m.modules@;
    let ghost f = impls_of();
    let ghost acc0 = acc;
    let mut acc = acc;
    let n = m.modules.len();
    let mut i: usize = 0;
    assert(ms.subrange(0, 0) == Seq::<DModule>::empty());
    while i < n
        invariant
            n == ms.len(),
            ms == m.modules@,
            i <= n,
            forest_all(ms, impls_fit_in()),
            fold_fits(acc0, forest_map(ms, f)),
            acc == fold_sum(acc0, forest_map(ms.subrange(0, i as int), f)),
            f == impls_of(),
        decreases n - i,
    {
        let child = &m.modules[i];
        proof {
            lemma_forest_all_at(ms, i as int, impls_fit_in());
            lemma_forest_sum_step(acc0, ms, i as int, f);
            assert(decreases_to!(*m => m.modules));
        }
        let c = child.current_impls_counts();
        acc = acc_sum(acc, c);
        acc = forest_impls_sum(child, acc);
        i = i + 1;
    }
    assert(ms.subrange(0, n as int) == ms);
    acc
}

impl DModule {
    /// Every kind of item in the module numbers at most `u32::MAX`.
    pub open spec fn counts_fit(&self) -> bool {
        &&& self.modules@.len() <= u32::MAX
        &&& self.structs@.len() <= u32::MAX
        &&& self.unions@.len() <= u32::MAX
        &&& self.enums@.len() <= u32::MAX
        &&& self.functions@.len() <= u32::MAX
        &&& self.traits@.len() <= u32::MAX
        &&& self.constants@.len() <= u32::MAX
        &&& self.statics@.len() <= u32::MAX
        &&& self.type_alias@.len() <= u32::MAX
        &&& self.macros_decl@.len() <= u32::MAX
        &&& self.macros_func@.len() <= u32::MAX
        &&& self.macros_attr@.len() <= u32::MAX
        &&& self.macros_derv@.len() <= u32::MAX
    }

    pub open spec fn spec_current_items_counts(&self) -> ItemCount {
        ItemCount {
            modules: self.modules@.len() as u32,
            structs: self.structs@.len() as u32,
            unions: self.unions@.len() as u32,
            enums: self.enums@.len() as u32,
            functions: self.functions@.len() as u32,
            traits: self.traits@.len() as u32,
            constants: self.constants@.len() as u32,
            statics: self.statics@.len() as u32,
            type_alias: self.type_alias@.len() as u32,
            macros_decl: self.macros_decl@.len() as u32,
            macros_func: self.macros_func@.len() as u32,
            macros_attr: self.macros_attr@.len() as u32,
            macros_derv: self.macros_derv@.len() as u32,
        }
    }

    /// Each count of the items directly in a module is the number of items of that very kind.
    pub proof fn law_item_counts_are_lengths(&self)
        requires
            self.counts_fit(),
        ensures
            self.spec_current_items_counts().modules == self.modules@.len(),
            self.spec_current_items_counts().structs == self.structs@.len(),
            self.spec_current_items_counts().unions == self.unions@.len(),
            self.spec_current_items_counts().enums == self.enums@.len(),
            self.spec_current_items_counts().functions == self.functions@.len(),
            self.spec_current_items_counts().traits == self.traits@.len(),
            self.spec_current_items_counts().constants == self.constants@.len(),
            self.spec_current_items_counts().statics == self.statics@.len(),
            self.spec_current_items_counts().type_alias == self.type_alias@.len(),
            self.spec_current_items_counts().macros_decl == self.macros_decl@.len(),
            self.spec_current_items_counts().macros_func == self.macros_func@.len(),
            self.spec_current_items_counts().macros_attr == self.macros_attr@.len(),
            self.spec_current_items_counts().macros_derv == self.macros_derv@.len(),
    {
    }

    /// Count the items under current module excluding the current module itself.
    pub fn current_items_counts(&self) -> (r: ItemCount)
        requires
            self.counts_fit(),
        ensures
            r == self.spec_current_items_counts(),
    {
        ItemCount {
            modules: self.modules.len() as u32,
            structs: self.structs.len() as u32,
            unions: self.unions.len() as u32,
            enums: self.enums.len() as u32,
            functions: self.functions.len() as u32,
            traits: self.traits.len() as u32,
            constants: self.constants.len() as u32,
            statics: self.statics.len() as u32,
            type_alias: self.type_alias.len() as u32,
            macros_decl: self.macros_decl.len() as u32,
            macros_func: self.macros_func.len() as u32,
            macros_attr: self.macros_attr.len() as u32,
            macros_derv: self.macros_derv.len() as u32,
        }
    }

    /// Count all the items below this module, at any depth: the sum of the item counts of
    /// every module of the subtree, this module's own first.
    pub fn recursive_items_counts(&self) -> (r: ItemCount)
        requires
            subtree_all(*self, items_fit_in()),
            fold_fits(self.spec_current_items_counts(), forest_map(self.modules@, items_of())),
        ensures
            r == fold_sum(self.spec_current_items_counts(), forest_map(self.modules@, items_of())),
    {
        let acc = self.current_items_counts();
        forest_items_sum(self, acc)
    }

    pub open spec fn impls_fit(&self) -> bool {
        &&& seq_sum(struct_inherent(self.structs@)) + seq_sum(enum_inherent(self.enums@))
            + seq_sum(union_inherent(self.unions@)) <= usize::MAX
        &&& seq_sum(struct_trait(self.structs@)) + seq_sum(enum_trait(self.enums@)) + seq_sum(
            union_trait(self.unions@),
        ) <= usize::MAX
    }

    pub open spec fn spec_current_impls_counts(&self) -> ImplCounts {
        let s_in = seq_sum(struct_inherent(self.structs@));
        let e_in = seq_sum(enum_inherent(self.enums@));
        let u_in = seq_sum(union_inherent(self.unions@));
        let s_tr = seq_sum(struct_trait(self.structs@));
        let e_tr = seq_sum(enum_trait(self.enums@));
        let u_tr = seq_sum(union_trait(self.unions@));
        let inherent = ImplCount {
            structs: s_in as u32,
            enums: e_in as u32,
            unions: u_in as u32,
            kind: ImplKind::Inherent,
            total: (s_in + e_in + u_in) as u32,
        };
        let trait_ = ImplCount {
            structs: s_tr as u32,
            enums: e_tr as u32,
            unions: u_tr as u32,
            kind: ImplKind::Trait,
            total: (s_tr + e_tr + u_tr) as u32,
        };
        ImplCounts { total: inherent.spec_add(trait_), inherent, trait_ }
    }

    /// Count the impl blocks of the module's data types; each count is truncated to `u32`.
    pub fn current_impls_counts(&self) -> (r: ImplCounts)
        requires
            self.impls_fit(),
            self.spec_current_impls_counts().inherent.can_add(
                self.spec_current_impls_counts().trait_,
            ),
        ensures
            r == self.spec_current_impls_counts(),
    {
        proof {
            lemma_seq_sum_nonneg(struct_inherent(self.structs@));
            lemma_seq_sum_nonneg(enum_inherent(self.enums@));
            lemma_seq_sum_nonneg(union_inherent(self.unions@));
            lemma_seq_sum_nonneg(struct_trait(self.structs@));
            lemma_seq_sum_nonneg(enum_trait(self.enums@));
            lemma_seq_sum_nonneg(union_trait(self.unions@));
        }
        let (s_in, s_tr) = sum_struct_impls(&self.structs);
        let (e_in, e_tr) = sum_enum_impls(&self.enums);
        let (u_in, u_tr) = sum_union_impls(&self.unions);
        let inherent = ImplCount {
            structs: s_in as u32,
            enums: e_in as u32,
            unions: u_in as u32,
            kind: ImplKind::Inherent,
            total: (s_in + e_in + u_in) as u32,
        };
        let trait_ = ImplCount {
            structs: s_tr as u32,
            enums: e_tr as u32,
            unions: u_tr as u32,
            kind: ImplKind::Trait,
            total: (s_tr + e_tr + u_tr) as u32,
        };
        ImplCounts { total: inherent.add(trait_), inherent, trait_ }
    }

    /// Count the impl blocks below this module, at any depth: the sum of the impl counts of
    /// every module of the subtree, this module's own first.
    pub fn recursive_impls_counts(&self) -> (r: ImplCounts)
        requires
            subtree_all(*self, impls_fit_in()),
            fold_fits(self.spec_current_impls_counts(), forest_map(self.modules@, impls_of())),
        ensures
            r == fold_sum(self.spec_current_impls_counts(), forest_map(self.modules@, impls_of())),
    {
        let acc = self.current_impls_counts();
        forest_impls_sum(self, acc)
    }
}

proof fn lemma_sum_prefix_le(s: Seq<int>, k: int)
    requires
        0 <= k <= s.len(),
        forall|i: int| 0 <= i < s.len() ==> s[i] >= 0,
    ensures
        seq_sum(s.subrange(0, k)) <= seq_sum(s),
    decreases s.len() - k,
{
    if k < s.len() {
        lemma_sum_prefix_le(s, k + 1);
        assert(s.subrange(0, k + 1) == s.subrange(0, k).push(s[k]));
        lemma_seq_sum_push(s.subrange(0, k), s[k]);
    } else {
        assert(s.subrange(0, k) == s);
    }
}

/// The numbers of inherent and trait impl blocks over the structs.
fn sum_struct_impls(v: &Vec<DStruct>) -> (r: (usize, usize))
    requires
        seq_sum(struct_inherent(v@)) <= usize::MAX,
        seq_sum(struct_trait(v@)) <= usize::MAX,
    ensures
        r.0 == seq_sum(struct_inherent(v@)),
        r.1 == seq_sum(struct_trait(v@)),
{
    let mut a: usize = 0;
    let mut b: usize = 0;
    let mut i: usize = 0;
    let ghost si = struct_inherent(v@);
    let ghost st = struct_trait(v@);
    assert(si.subrange(0, 0) == Seq::<int>::empty());
    assert(st.subrange(0, 0) == Seq::<int>::empty());
    while i < v.len()
        invariant
            i <= v.len(),
            si == struct_inherent(v@),
            st == struct_trait(v@),
            seq_sum(si) <= usize::MAX,
            seq_sum(st) <= usize::MAX,
            a == seq_sum(si.subrange(0, i as int)),
            b == seq_sum(st.subrange(0, i as int)),
        decreases v.len() - i,
    {
        proof {
            assert(si.subrange(0, i + 1) == si.subrange(0, i as int).push(si[i as int]));
            assert(st.subrange(0, i + 1) == st.subrange(0, i as int).push(st[i as int]));
            lemma_seq_sum_push(si.subrange(0, i as int), si[i as int]);
            lemma_seq_sum_push(st.subrange(0, i as int), st[i as int]);
            lemma_sum_prefix_le(si, i + 1);
            lemma_sum_prefix_le(st, i + 1);
        }
        a = a + v[i].impls.inherent.len();
        b = b + v[i].impls.trait_.len();
        i = i + 1;
    }
    assert(si.subrange(0, i as int) == si);
    assert(st.subrange(0, i as int) == st);
    (a, b)
}

fn sum_enum_impls(v: &Vec<DEnum>) -> (r: (usize, usize))
    requires
        seq_sum(enum_inherent(v@)) <= usize::MAX,
        seq_sum(enum_trait(v@)) <= usize::MAX,
    ensures
        r.0 == seq_sum(enum_inherent(v@)),
        r.1 == seq_sum(enum_trait(v@)),
{
    let mut a: usize = 0;
    let mut b: usize = 0;
    let mut i: usize = 0;
    let ghost si = enum_inherent(v@);
    let ghost st = enum_trait(v@);
    assert(si.subrange(0, 0) == Seq::<int>::empty());
    assert(st.subrange(0, 0) == Seq::<int>::empty());
    while i < v.len()
        invariant
            i <= v.len(),
            si == enum_inherent(v@),
            st == enum_trait(v@),
            seq_sum(si) <= usize::MAX,
            seq_sum(st) <= usize::MAX,
            a == seq_sum(si.subrange(0, i as int)),
            b == seq_sum(st.subrange(0, i as int)),
        decreases v.len() - i,
    {
        proof {
            assert(si.subrange(0, i + 1) == si.subrange(0, i as int).push(si[i as int]));
            assert(st.subrange(0, i + 1) == st.subrange(0, i as int).push(st[i as int]));
            lemma_seq_sum_push(si.subrange(0, i as int), si[i as int]);
            lemma_seq_sum_push(st.subrange(0, i as int), st[i as int]);
            lemma_sum_prefix_le(si, i + 1);
            lemma_sum_prefix_le(st, i + 1);
        }
        a = a + v[i].impls.inherent.len();
        b = b + v[i].impls.trait_.len();
        i = i + 1;
    }
    assert(si.subrange(0, i as int) == si);
    assert(st.subrange(0, i as int) == st);
    (a, b)
}

fn sum_union_impls(v: &Vec<DUnion>) -> (r: (usize, usize))
    requires
        seq_sum(union_inherent(v@)) <= usize::MAX,
        seq_sum(union_trait(v@)) <= usize::MAX,
    ensures
        r.0 == seq_sum(union_inherent(v@)),
        r.1 == seq_sum(union_trait(v@)),
{
    let mut a: usize = 0;
    let mut b: usize = 0;
    let mut i: usize = 0;
    let ghost si = union_inherent(v@);
    let ghost st = union_trait(v@);
    assert(si.subrange(0, 0) == Seq::<int>::empty());
    assert(st.subrange(0, 0) == Seq::<int>::empty());
    while i < v.len()
        invariant
            i <= v.len(),
            si == union_inherent(v@),
            st == union_trait(v@),
            seq_sum(si) <= usize::MAX,
            seq_sum(st) <= usize::MAX,
            a == seq_sum(si.subrange(0, i as int)),
            b == seq_sum(st.subrange(0, i as int)),
        decreases v.len() - i,
    {
        proof {
            assert(si.subrange(0, i + 1) == si.subrange(0, i as int).push(si[i as int]));
            assert(st.subrange(0, i + 1) == st.subrange(0, i as int).push(st[i as int]));
            lemma_seq_sum_push(si.subrange(0, i as int), si[i as int]);
            lemma_seq_sum_push(st.subrange(0, i as int), st[i as int]);
            lemma_sum_prefix_le(si, i + 1);
            lemma_sum_prefix_le(st, i + 1);
        }
        a = a + v[i].impls.inherent.len();
        b = b + v[i].impls.trait_.len();
        i = i + 1;
    }
    assert(si.subrange(0, i as int) == si);
    assert(st.subrange(0, i as int) == st);
    (a, b)
}

/// Adding two impl kinds gives the same kind when both are the same, and `Both` otherwise.
pub proof fn law_impl_kind_add(a: ImplKind, b: ImplKind)
    ensures
        a.spec_add(b) == (if a == b { a } else { ImplKind::Both }),
        a.spec_add(b) == b.spec_add(a),
{
}

/// Adding impl kinds does not depend on how the additions are grouped.
pub proof fn law_impl_kind_add_associative(a: ImplKind, b: ImplKind, c: ImplKind)
    ensures
        a.spec_add(b).spec_add(c) == a.spec_add(b.spec_add(c)),
{
}

/// Item counts add up field by field, in either order.
pub proof fn law_item_count_add_commutative(a: ItemCount, b: ItemCount)
    requires
        a.can_add(b),
    ensures
        b.can_add(a),
        a.spec_add(b) == b.spec_add(a),
{
}

/// The numbers of items of each kind.
pub struct TotolCount {
    pub modules: u32,
    pub structs: u32,
    pub unions: u32,
    pub enums: u32,
    pub functions: u32,
    pub traits: u32,
    pub constants: u32,
    pub statics: u32,
    pub type_alias: u32,
    pub imports: u32,
    pub macros_decl: u32,
    pub macros_func: u32,
    pub macros_attr: u32,
    pub macros_derv: u32,
}

impl TotolCount {
    /// The counts of each kind add up within `u32`.
    pub open spec fn fits_with(&self, rhs: &TotolCount) -> bool {
        &&& self.modules + rhs.modules <= u32::MAX
        &&& self.structs + rhs.structs <= u32::MAX
        &&& self.unions + rhs.unions <= u32::MAX
        &&& self.enums + rhs.enums <= u32::MAX
        &&& self.functions + rhs.functions <= u32::MAX
        &&& self.traits + rhs.traits <= u32::MAX
        &&& self.constants + rhs.constants <= u32::MAX
        &&& self.statics + rhs.statics <= u32::MAX
        &&& self.type_alias + rhs.type_alias <= u32::MAX
        &&& self.imports + rhs.imports <= u32::MAX
        &&& self.macros_decl + rhs.macros_decl <= u32::MAX
        &&& self.macros_func + rhs.macros_func <= u32::MAX
        &&& self.macros_attr + rhs.macros_attr <= u32::MAX
        &&& self.macros_derv + rhs.macros_derv <= u32::MAX
    }

    /// The counts of each kind added.
    pub open spec fn spec_add(self, rhs: TotolCount) -> TotolCount {
        TotolCount {
            modules: (self.modules + rhs.modules) as u32,
            structs: (self.structs + rhs.structs) as u32,
            unions: (self.unions + rhs.unions) as u32,
            enums: (self.enums + rhs.enums) as u32,
            functions: (self.functions + rhs.functions) as u32,
            traits: (self.traits + rhs.traits) as u32,
            constants: (self.constants + rhs.constants) as u32,
            statics: (self.statics + rhs.statics) as u32,
            type_alias: (self.type_alias + rhs.type_alias) as u32,
            imports: (self.imports + rhs.imports) as u32,
            macros_decl: (self.macros_decl + rhs.macros_decl) as u32,
            macros_func: (self.macros_func + rhs.macros_func) as u32,
            macros_attr: (self.macros_attr + rhs.macros_attr) as u32,
            macros_derv: (self.macros_derv + rhs.macros_derv) as u32,
        }
    }

    /// No item of any kind.
    pub fn zero() -> (r: TotolCount)
        ensures
            r == (TotolCount { modules: 0, structs: 0, unions: 0, enums: 0, functions: 0, traits: 0, constants: 0, statics: 0, type_alias: 0, imports: 0, macros_decl: 0, macros_func: 0, macros_attr: 0, macros_derv: 0 }),
    {
        TotolCount { modules: 0, structs: 0, unions: 0, enums: 0, functions: 0, traits: 0, constants: 0, statics: 0, type_alias: 0, imports: 0, macros_decl: 0, macros_func: 0, macros_attr: 0, macros_derv: 0 }
    }

    /// The counts of each kind added.
    pub fn add(self, rhs: TotolCount) -> (r: TotolCount)
        requires
            self.fits_with(&rhs),
        ensures
            r == self.spec_add(rhs),
    {
        TotolCount {
            modules: self.modules + rhs.modules,
            structs: self.structs + rhs.structs,
            unions: self.unions + rhs.unions,
            enums: self.enums + rhs.enums,
            functions: self.functions + rhs.functions,
            traits: self.traits + rhs.traits,
            constants: self.constants + rhs.constants,
            statics: self.statics + rhs.statics,
            type_alias: self.type_alias + rhs.type_alias,
            imports: self.imports + rhs.imports,
            macros_decl: self.macros_decl + rhs.macros_decl,
            macros_func: self.macros_func + rhs.macros_func,
            macros_attr: self.macros_attr + rhs.macros_attr,
            macros_derv: self.macros_derv + rhs.macros_derv,
        }
    }

    /// Add the counts of each kind.
    pub fn add_assign(&mut self, rhs: TotolCount)
        requires
            old(self).fits_with(&rhs),
        ensures
            *final(self) == old(self).spec_add(rhs),
    {
        self.modules = self.modules + rhs.modules;
        self.structs = self.structs + rhs.structs;
        self.unions = self.unions + rhs.unions;
        self.enums = self.enums + rhs.enums;
        self.functions = self.functions + rhs.functions;
        self.traits = self.traits + rhs.traits;
        self.constants = self.constants + rhs.constants;
        self.statics = self.statics + rhs.statics;
        self.type_alias = self.type_alias + rhs.type_alias;
        self.imports = self.imports + rhs.imports;
        self.macros_decl = self.macros_decl + rhs.macros_decl;
        self.macros_func = self.macros_func + rhs.macros_func;
        self.macros_attr = self.macros_attr + rhs.macros_attr;
        self.macros_derv = self.macros_derv + rhs.macros_derv;
    }
}

/// Adding counts is commutative: the order in which counts are added does not matter.
pub proof fn law_totol_count_add_commutative(a: TotolCount, b: TotolCount)
    ensures
        a.spec_add(b) == b.spec_add(a),
{
}

/// Adding counts is associative where the sums fit.
pub proof fn law_totol_count_add_associative(a: TotolCount, b: TotolCount, c: TotolCount)
    requires
        a.fits_with(&b),
        b.fits_with(&c),
        a.spec_add(b).fits_with(&c),
    ensures
        a.spec_add(b).spec_add(c) == a.spec_add(b.spec_add(c)),
{
}

} // verus!
