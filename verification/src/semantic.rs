//! The kāraka-aware semantic analysis: case endings on names, the Gaṇa type
//! encoding, the scoped symbol table and the type checker.
use vstd::prelude::*;
pub use crate::ast::AccessModifier;
use crate::ast::{ASTNode, Expression, ExprM, NodeM, expr_m, exprs_m, node_m, nodes_m, arms_m, strs_m, pairs_m, variants_m, opt_str_m, clone_expr, clone_node, clone_strings, clone_pairs, lemma_exprs_m, lemma_exprs_m_push, lemma_nodes_m, lemma_nodes_m_push, lemma_arms_m};
use crate::vm::{Value, ValueM};
use crate::util::{debug_of_str, str_debug, str_eq, push_str, push_char, owned, chars_of, usize_text, decimal, NameMap, assoc_get, assoc_index, lemma_assoc_index};

verus! {

/// Kāraka (vibhakti case-ending) tags for argument binding.  Arguments can
/// appear in any order; parameter slots are matched by these tags rather than
/// by position.
#[derive(Debug, Clone, Copy, PartialEq, Eq, Hash, Structural)]
pub enum Karaka {
    Kartr,
    Karma,
    Karana,
    Sampradana,
    Apadana,
    Sambandha,
    Adhikarana,
    Default,
}

/// The case-ending suffixes, each in Devanagari and transliterated, in the
/// order they are tried.
pub open spec fn karaka_suffixes() -> Seq<(Seq<char>, Karaka)> {
    seq![
        ("_कर्तृ"@, Karaka::Kartr),
        ("_kartr"@, Karaka::Kartr),
        ("_कर्म"@, Karaka::Karma),
        ("_karma"@, Karaka::Karma),
        ("_करण"@, Karaka::Karana),
        ("_karana"@, Karaka::Karana),
        ("_सम्प्रदान"@, Karaka::Sampradana),
        ("_sampradana"@, Karaka::Sampradana),
        ("_अपादान"@, Karaka::Apadana),
        ("_apadana"@, Karaka::Apadana),
        ("_सम्बन्ध"@, Karaka::Sambandha),
        ("_sambandha"@, Karaka::Sambandha),
        ("_अधिकरण"@, Karaka::Adhikarana),
        ("_adhikarana"@, Karaka::Adhikarana),
    ]
}

pub open spec fn ends_with(s: Seq<char>, t: Seq<char>) -> bool {
    t.len() <= s.len() && s.subrange(s.len() - t.len(), s.len() as int) == t
}

/// The first suffix of `list` that ends `name`: the name without it, and
/// its kāraka; the whole name and `Default` where none does.
pub open spec fn karaka_split(name: Seq<char>, list: Seq<(Seq<char>, Karaka)>) -> (Seq<char>, Karaka)
    decreases list.len(),
{
    if list.len() == 0 {
        (name, Karaka::Default)
    } else if ends_with(name, list[0].0) {
        (name.subrange(0, name.len() - list[0].0.len()), list[0].1)
    } else {
        karaka_split(name, list.drop_first())
    }
}

/// The base name and kāraka of a name.
pub open spec fn karaka_of(name: Seq<char>) -> (Seq<char>, Karaka) {
    karaka_split(name, karaka_suffixes())
}

/// Whether `s` begins with an underscore and holds no other.
pub open spec fn single_leading_underscore(s: Seq<char>) -> bool {
    s.len() > 0 && s[0] == '_' && forall|m: int| 0 < m < s.len() ==> #[trigger] s[m] != '_'
}

/// Splitting stops at the first suffix of the list that ends the name.
pub proof fn lemma_karaka_split_at(name: Seq<char>, list: Seq<(Seq<char>, Karaka)>, j: int)
    requires
        0 <= j < list.len(),
        ends_with(name, list[j].0),
        forall|i: int| 0 <= i < j ==> !ends_with(name, (#[trigger] list[i]).0),
    ensures
        karaka_split(name, list) == (name.subrange(0, name.len() - list[j].0.len()), list[j].1),
    decreases j,
{
    if j > 0 {
        let rest = list.drop_first();
        assert(!ends_with(name, list[0].0));
        assert forall|i: int| 0 <= i < j - 1 implies !ends_with(name, (#[trigger] rest[i]).0) by {
            assert(rest[i] == list[i + 1]);
        }
        assert(rest[j - 1] == list[j]);
        lemma_karaka_split_at(name, rest, j - 1);
    }
}

/// A name that ends in one underscore-led suffix does not end in another.
pub proof fn lemma_suffix_excludes(base: Seq<char>, a: Seq<char>, b: Seq<char>)
    requires
        single_leading_underscore(a),
        single_leading_underscore(b),
        a != b,
    ensures
        !ends_with(base + b, a),
{
    let n = base + b;
    if ends_with(n, a) {
        let tail = n.subrange(n.len() - a.len(), n.len() as int);
        assert(tail == a);
        if a.len() == b.len() {
            assert(a =~= b) by {
                assert forall|m: int| 0 <= m < a.len() implies a[m] == b[m] by {
                    assert(tail[m] == n[n.len() - a.len() + m]);
                }
            }
        } else if a.len() < b.len() {
            let m = b.len() - a.len();
            assert(tail[0] == n[n.len() - a.len()]);
            assert(n[n.len() - a.len()] == b[m]);
            assert(b[m] != '_');
        } else {
            let m = a.len() - b.len();
            assert(tail[m] == n[n.len() - b.len()]);
            assert(n[n.len() - b.len()] == b[0]);
            assert(a[m] != '_');
        }
    }
}

/// The kāraka suffix of a name is split off whole: a base name followed by
/// any of the suffixes gives back that base name and the suffix's kāraka.
pub proof fn law_karaka_suffix_split(base: Seq<char>, j: int)
    requires
        0 <= j < karaka_suffixes().len(),
    ensures
        karaka_of(base + karaka_suffixes()[j].0) == (base, karaka_suffixes()[j].1),
{
    reveal_strlit("_कर्तृ");
    reveal_strlit("_kartr");
    reveal_strlit("_कर्म");
    reveal_strlit("_karma");
    reveal_strlit("_करण");
    reveal_strlit("_karana");
    reveal_strlit("_सम्प्रदान");
    reveal_strlit("_sampradana");
    reveal_strlit("_अपादान");
    reveal_strlit("_apadana");
    reveal_strlit("_सम्बन्ध");
    reveal_strlit("_sambandha");
    reveal_strlit("_अधिकरण");
    reveal_strlit("_adhikarana");
    let l = karaka_suffixes();
    let name = base + l[j].0;
    assert forall|i: int| 0 <= i < l.len() implies single_leading_underscore((#[trigger] l[i]).0) by {
    }
    assert forall|i: int| 0 <= i < j implies !ends_with(name, (#[trigger] l[i]).0) by {
        assert(l[i].0.len() != l[j].0.len() || l[i].0[1] != l[j].0[1] || l[i].0[2] != l[j].0[2]
            || l[i].0[3] != l[j].0[3] || l[i].0[4] != l[j].0[4]);
        lemma_suffix_excludes(base, l[i].0, l[j].0);
    }
    assert(name.subrange(name.len() - l[j].0.len(), name.len() as int) =~= l[j].0);
    lemma_karaka_split_at(name, l, j);
    assert(name.subrange(0, name.len() - l[j].0.len()) =~= base);
}

fn suffix_table() -> (r: Vec<(&'static str, Karaka)>)
    ensures
        r@.len() == karaka_suffixes().len(),
        forall|i: int| 0 <= i < r@.len() ==> (#[trigger] r@[i]).0@ == karaka_suffixes()[i].0 && r@[i].1 == karaka_suffixes()[i].1,
{
    let r = vec![
        ("_कर्तृ", Karaka::Kartr),
        ("_kartr", Karaka::Kartr),
        ("_कर्म", Karaka::Karma),
        ("_karma", Karaka::Karma),
        ("_करण", Karaka::Karana),
        ("_karana", Karaka::Karana),
        ("_सम्प्रदान", Karaka::Sampradana),
        ("_sampradana", Karaka::Sampradana),
        ("_अपादान", Karaka::Apadana),
        ("_apadana", Karaka::Apadana),
        ("_सम्बन्ध", Karaka::Sambandha),
        ("_sambandha", Karaka::Sambandha),
        ("_अधिकरण", Karaka::Adhikarana),
        ("_adhikarana", Karaka::Adhikarana),
    ];
    r
}

/// Whether the characters `s` end with the characters `t`.
fn chars_end_with(s: &Vec<char>, t: &Vec<char>) -> (r: bool)
    ensures
        r == ends_with(s@, t@),
{
    if t.len() > s.len() {
        return false;
    }
    let n = s.len();
    let off = s.len() - t.len();
    let mut i: usize = 0;
    while i < t.len()
        invariant
            t@.len() <= s@.len(),
            n == s@.len(),
            off == s@.len() - t@.len(),
            off + t@.len() == n,
            i <= t@.len(),
            forall|j: int| 0 <= j < i ==> s@[off + j] == t@[j],
        decreases t@.len() - i,
    {
        if s[off + i] != t[i] {
            assert(s@.subrange(off as int, s@.len() as int)[i as int] != t@[i as int]);
            return false;
        }
        i = i + 1;
    }
    assert(s@.subrange(off as int, s@.len() as int) =~= t@);
    true
}

/// Splits a case ending off a name: `रामम्_कर्म` is `रामम्` in the kāraka
/// Karma; a name without a known ending is its own base, `Default`.
pub fn extract_karaka(name: &str) -> (r: (String, Karaka))
    ensures
        r.0@ == karaka_of(name@).0,
        r.1 == karaka_of(name@).1,
{
    let chars = chars_of(name);
    let table = suffix_table();
    let mut i: usize = 0;
    assert(karaka_suffixes().subrange(0, 14) =~= karaka_suffixes());
    while i < table.len()
        invariant
            i <= table@.len(),
            table@.len() == karaka_suffixes().len(),
            chars@ == name@,
            forall|j: int| 0 <= j < table@.len() ==> (#[trigger] table@[j]).0@ == karaka_suffixes()[j].0 && table@[j].1 == karaka_suffixes()[j].1,
            karaka_of(name@) == karaka_split(name@, karaka_suffixes().subrange(i as int, karaka_suffixes().len() as int)),
        decreases table@.len() - i,
    {
        let ghost rest = karaka_suffixes().subrange(i as int, karaka_suffixes().len() as int);
        assert(rest[0] == karaka_suffixes()[i as int]);
        assert(rest.drop_first() =~= karaka_suffixes().subrange(i + 1, karaka_suffixes().len() as int));
        let suffix = chars_of(table[i].0);
        if chars_end_with(&chars, &suffix) {
            let keep = chars.len() - suffix.len();
            let mut base = String::new();
            let mut k: usize = 0;
            while k < keep
                invariant
                    k <= keep <= chars@.len(),
                    base@ == chars@.subrange(0, k as int),
                decreases keep - k,
            {
                push_char(&mut base, chars[k]);
                k = k + 1;
                assert(base@ =~= chars@.subrange(0, k as int));
            }
            return (base, table[i].1);
        }
        i = i + 1;
    }
    (owned(name), Karaka::Default)
}

/// The label of a kāraka in messages.
pub open spec fn karaka_label_text(k: Karaka) -> Seq<char> {
    match k {
        Karaka::Kartr => "कर्तृ (agent/subject)"@,
        Karaka::Karma => "कर्म (object)"@,
        Karaka::Karana => "करण (instrument)"@,
        Karaka::Sampradana => "सम्प्रदान (recipient)"@,
        Karaka::Apadana => "अपादान (source)"@,
        Karaka::Sambandha => "सम्बन्ध (possession)"@,
        Karaka::Adhikarana => "अधिकरण (location)"@,
        Karaka::Default => "positional"@,
    }
}

/// A kāraka as a human-readable label (for error messages).
pub fn karaka_label(k: &Karaka) -> (r: &'static str)
    ensures
        r@ == karaka_label_text(*k),
{
    match k {
        Karaka::Kartr => "कर्तृ (agent/subject)",
        Karaka::Karma => "कर्म (object)",
        Karaka::Karana => "करण (instrument)",
        Karaka::Sampradana => "सम्प्रदान (recipient)",
        Karaka::Apadana => "अपादान (source)",
        Karaka::Sambandha => "सम्बन्ध (possession)",
        Karaka::Adhikarana => "अधिकरण (location)",
        Karaka::Default => "positional",
    }
}

/// The name of a kāraka as `{:?}` writes it.
pub open spec fn karaka_debug(k: Karaka) -> Seq<char> {
    match k {
        Karaka::Kartr => "Kartr"@,
        Karaka::Karma => "Karma"@,
        Karaka::Karana => "Karana"@,
        Karaka::Sampradana => "Sampradana"@,
        Karaka::Apadana => "Apadana"@,
        Karaka::Sambandha => "Sambandha"@,
        Karaka::Adhikarana => "Adhikarana"@,
        Karaka::Default => "Default"@,
    }
}

fn karaka_debug_str(k: Karaka) -> (r: &'static str)
    ensures
        r@ == karaka_debug(k),
{
    match k {
        Karaka::Kartr => "Kartr",
        Karaka::Karma => "Karma",
        Karaka::Karana => "Karana",
        Karaka::Sampradana => "Sampradana",
        Karaka::Apadana => "Apadana",
        Karaka::Sambandha => "Sambandha",
        Karaka::Adhikarana => "Adhikarana",
        Karaka::Default => "Default",
    }
}

/// The Gaṇa encoding of a type and its state in one byte:
/// `(state << 3) | type`.  Type bits: न=0 void, स=1 str, ज=2 bool, य=3
/// array, र=4 float, त=5 func, म=7 int.  State bits: भ=0 declared,
/// र=1 assigned, त=2 in use.
#[derive(Debug, Clone, Copy, PartialEq, Eq, Structural)]
pub struct GanaType(pub u8);

pub const GANA_VOID: u8 = 0;
pub const GANA_STR: u8 = 1;
pub const GANA_BOOL: u8 = 2;
pub const GANA_ARRAY: u8 = 3;
pub const GANA_FLOAT: u8 = 4;
pub const GANA_FUNC: u8 = 5;
pub const GANA_INT: u8 = 7;
pub const GANA_DECLARED: u8 = 0;
pub const GANA_ASSIGNED: u8 = 1;
pub const GANA_IN_USE: u8 = 2;

impl GanaType {
    pub const VOID: u8 = 0;
    pub const STR: u8 = 1;
    pub const BOOL: u8 = 2;
    pub const ARRAY: u8 = 3;
    pub const FLOAT: u8 = 4;
    pub const FUNC: u8 = 5;
    pub const INT: u8 = 7;
    pub const DECLARED: u8 = 0;
    pub const ASSIGNED: u8 = 1;
    pub const IN_USE: u8 = 2;

    pub open spec fn spec_typ(self) -> u8 {
        self.0 & 7u8
    }

    pub open spec fn spec_state(self) -> u8 {
        (self.0 >> 3u8) & 7u8
    }

    /// An assigned value of the type `typ`.
    pub fn new(typ: u8) -> (r: Self)
        ensures
            r.0 == (8u8 | typ),
    {
        assert((1u8 << 3u8) == 8u8) by (bit_vector);
        GanaType((1u8 << 3u8) | typ)
    }

    pub fn typ(self) -> (r: u8)
        ensures
            r == self.spec_typ(),
    {
        self.0 & 0x07
    }

    pub fn state(self) -> (r: u8)
        ensures
            r == self.spec_state(),
    {
        (self.0 >> 3) & 0x07
    }

    /// The same type in the state `state`.
    pub fn with_state(self, state: u8) -> (r: Self)
        ensures
            r.0 == (((state << 3u8) as u8) | self.spec_typ()),
    {
        GanaType((state << 3) | self.typ())
    }

    pub fn integer() -> (r: Self)
        ensures
            r == GanaType(15u8),
    {
        let r = Self::new(GANA_INT);
        assert((8u8 | 7u8) == 15u8) by (bit_vector);
        r
    }

    pub fn bool() -> (r: Self)
        ensures
            r == GanaType(10u8),
    {
        let r = Self::new(GANA_BOOL);
        assert((8u8 | 2u8) == 10u8) by (bit_vector);
        r
    }

    pub fn str() -> (r: Self)
        ensures
            r == GanaType(9u8),
    {
        let r = Self::new(GANA_STR);
        assert((8u8 | 1u8) == 9u8) by (bit_vector);
        r
    }

    pub fn float() -> (r: Self)
        ensures
            r == GanaType(12u8),
    {
        let r = Self::new(GANA_FLOAT);
        assert((8u8 | 4u8) == 12u8) by (bit_vector);
        r
    }

    pub fn void() -> (r: Self)
        ensures
            r == GanaType(8u8),
    {
        let r = Self::new(GANA_VOID);
        assert((8u8 | 0u8) == 8u8) by (bit_vector);
        r
    }

    pub fn func() -> (r: Self)
        ensures
            r == GanaType(13u8),
    {
        let r = Self::new(GANA_FUNC);
        assert((8u8 | 5u8) == 13u8) by (bit_vector);
        r
    }

    pub fn array() -> (r: Self)
        ensures
            r == GanaType(11u8),
    {
        let r = Self::new(GANA_ARRAY);
        assert((8u8 | 3u8) == 11u8) by (bit_vector);
        r
    }
}

/// Changing the state of a type keeps the type and sets the state (its low
/// three bits).
pub proof fn lemma_with_state(g: u8, state: u8)
    ensures
        ((((state << 3u8) as u8) | (g & 7u8)) & 7u8) == (g & 7u8),
        (((((state << 3u8) as u8) | (g & 7u8)) >> 3u8) & 7u8) == (state & 7u8),
{
    assert(((((state << 3u8) as u8) | (g & 7u8)) & 7u8) == (g & 7u8)) by (bit_vector);
    assert((((((state << 3u8) as u8) | (g & 7u8)) >> 3u8) & 7u8) == (state & 7u8)) by (bit_vector);
}

/// A new type keeps its type bits and is in the assigned state.
pub proof fn lemma_new_gana(typ: u8)
    requires
        typ < 8,
    ensures
        ((8u8 | typ) & 7u8) == typ,
        (((8u8 | typ) >> 3u8) & 7u8) == 1u8,
{
    assert(typ < 8 ==> ((8u8 | typ) & 7u8) == typ) by (bit_vector);
    assert(typ < 8 ==> (((8u8 | typ) >> 3u8) & 7u8) == 1u8) by (bit_vector);
}

/// Resolved type information for a symbol.
#[derive(Debug, PartialEq)]
pub enum ResolvedType {
    Known(GanaType),
    UserDefined(String),
    Unknown,
}

/// The model of a resolved type.
pub enum ResolvedM {
    Known(GanaType),
    UserDefined(Seq<char>),
    Unknown,
}

impl View for ResolvedType {
    type V = ResolvedM;

    open spec fn view(&self) -> ResolvedM {
        match self {
            ResolvedType::Known(g) => ResolvedM::Known(*g),
            ResolvedType::UserDefined(s) => ResolvedM::UserDefined(s@),
            ResolvedType::Unknown => ResolvedM::Unknown,
        }
    }
}

pub fn clone_resolved(t: &ResolvedType) -> (r: ResolvedType)
    ensures
        r@ == t@,
{
    match t {
        ResolvedType::Known(g) => ResolvedType::Known(*g),
        ResolvedType::UserDefined(s) => ResolvedType::UserDefined(s.clone()),
        ResolvedType::Unknown => ResolvedType::Unknown,
    }
}

impl Clone for ResolvedType {
    fn clone(&self) -> (r: Self)
        ensures
            r@ == self@,
    {
        clone_resolved(self)
    }
}

/// A parameter of a function: its full name, base name, kāraka and type.
pub type ParamInfo = (String, String, Karaka, ResolvedType);

/// A symbol table entry.
#[derive(Debug)]
pub struct Symbol {
    pub name: String,
    pub base_name: String,
    pub karaka: Karaka,
    pub resolved_type: ResolvedType,
    pub depth: usize,
    pub is_function: bool,
    pub param_count: usize,
    /// Parameter info: (full_param_name, base_name, karaka, type)
    pub param_types: Vec<(String, String, Karaka, ResolvedType)>,
    pub access_level: AccessModifier,
}

/// The model of a parameter.
pub type ParamM = (Seq<char>, Seq<char>, Karaka, ResolvedM);

/// The model of a symbol.
pub struct SymbolM {
    pub name: Seq<char>,
    pub base_name: Seq<char>,
    pub karaka: Karaka,
    pub resolved_type: ResolvedM,
    pub depth: usize,
    pub is_function: bool,
    pub param_count: usize,
    pub param_types: Seq<ParamM>,
    pub access_level: AccessModifier,
}

pub open spec fn params_m(s: Seq<(String, String, Karaka, ResolvedType)>) -> Seq<ParamM> {
    s.map_values(|p: (String, String, Karaka, ResolvedType)| (p.0@, p.1@, p.2, p.3@))
}

impl View for Symbol {
    type V = SymbolM;

    open spec fn view(&self) -> SymbolM {
        SymbolM {
            name: self.name@,
            base_name: self.base_name@,
            karaka: self.karaka,
            resolved_type: self.resolved_type@,
            depth: self.depth,
            is_function: self.is_function,
            param_count: self.param_count,
            param_types: params_m(self.param_types@),
            access_level: self.access_level,
        }
    }
}

pub fn clone_params(v: &Vec<(String, String, Karaka, ResolvedType)>) -> (r: Vec<(String, String, Karaka, ResolvedType)>)
    ensures
        params_m(r@) == params_m(v@),
{
    let mut r: Vec<(String, String, Karaka, ResolvedType)> = Vec::new();
    let mut i: usize = 0;
    while i < v.len()
        invariant
            i <= v@.len(),
            r@.len() == i,
            forall|j: int| 0 <= j < i ==> (#[trigger] r@[j]).0@ == v@[j].0@ && r@[j].1@ == v@[j].1@ && r@[j].2 == v@[j].2 && r@[j].3@ == v@[j].3@,
        decreases v@.len() - i,
    {
        let p = &v[i];
        r.push((p.0.clone(), p.1.clone(), p.2, clone_resolved(&p.3)));
        i = i + 1;
    }
    assert(params_m(r@) =~= params_m(v@));
    r
}

pub fn clone_symbol(s: &Symbol) -> (r: Symbol)
    ensures
        r@ == s@,
{
    Symbol {
        name: s.name.clone(),
        base_name: s.base_name.clone(),
        karaka: s.karaka,
        resolved_type: clone_resolved(&s.resolved_type),
        depth: s.depth,
        is_function: s.is_function,
        param_count: s.param_count,
        param_types: clone_params(&s.param_types),
        access_level: s.access_level,
    }
}

impl Clone for Symbol {
    fn clone(&self) -> (r: Self)
        ensures
            r@ == self@,
    {
        clone_symbol(self)
    }
}

/// The model of one scope: its names and symbols in the order they were
/// first declared.
pub type ScopeM = Seq<(Seq<char>, SymbolM)>;

pub open spec fn scope_m(s: Seq<(String, Symbol)>) -> ScopeM {
    s.map_values(|e: (String, Symbol)| (e.0@, e.1@))
}

/// The symbol declared under `name` in a scope.
pub open spec fn scope_get(scope: ScopeM, name: Seq<char>) -> Option<SymbolM>
    decreases scope.len(),
{
    if scope.len() == 0 {
        None
    } else if scope[0].0 == name {
        Some(scope[0].1)
    } else {
        scope_get(scope.drop_first(), name)
    }
}

/// The index of `name` in a scope.
pub open spec fn scope_index(scope: ScopeM, name: Seq<char>) -> Option<int>
    decreases scope.len(),
{
    if scope.len() == 0 {
        None
    } else if scope[0].0 == name {
        Some(0)
    } else {
        match scope_index(scope.drop_first(), name) {
            Some(i) => Some(i + 1),
            None => None,
        }
    }
}

/// Declaring `name` in a scope: a name already there is redeclared in its
/// place, a new one is appended.
pub open spec fn scope_insert(scope: ScopeM, name: Seq<char>, sym: SymbolM) -> ScopeM {
    match scope_index(scope, name) {
        Some(i) => scope.update(i, (name, sym)),
        None => scope.push((name, sym)),
    }
}

/// The symbol of a name in the innermost scope that declares it.
pub open spec fn lookup_in(scopes: Seq<ScopeM>, name: Seq<char>) -> Option<SymbolM>
    decreases scopes.len(),
{
    if scopes.len() == 0 {
        None
    } else {
        match scope_get(scopes.last(), name) {
            Some(s) => Some(s),
            None => lookup_in(scopes.drop_last(), name),
        }
    }
}

/// The first symbol of a scope with the given base name and kāraka.
pub open spec fn scope_find_base(scope: ScopeM, base: Seq<char>, k: Karaka) -> Option<SymbolM>
    decreases scope.len(),
{
    if scope.len() == 0 {
        None
    } else if scope[0].1.base_name == base && scope[0].1.karaka == k {
        Some(scope[0].1)
    } else {
        scope_find_base(scope.drop_first(), base, k)
    }
}

/// A symbol with the given base name and kāraka, innermost scope first.
pub open spec fn lookup_base_in(scopes: Seq<ScopeM>, base: Seq<char>, k: Karaka) -> Option<SymbolM>
    decreases scopes.len(),
{
    if scopes.len() == 0 {
        None
    } else {
        match scope_find_base(scopes.last(), base, k) {
            Some(s) => Some(s),
            None => lookup_base_in(scopes.drop_last(), base, k),
        }
    }
}

/// The symbol with its state changed, where its type is known.
pub open spec fn with_state_sym(sym: SymbolM, state: u8) -> SymbolM {
    match sym.resolved_type {
        ResolvedM::Known(g) => SymbolM { resolved_type: ResolvedM::Known(GanaType((((state << 3u8) as u8) | g.spec_typ()))), ..sym },
        _ => sym,
    }
}

/// Changing the state of `name` in the innermost scope that declares it.
pub open spec fn update_state_in(scopes: Seq<ScopeM>, name: Seq<char>, state: u8) -> Seq<ScopeM>
    decreases scopes.len(),
{
    if scopes.len() == 0 {
        scopes
    } else {
        let last = scopes.last();
        match scope_index(last, name) {
            Some(i) => scopes.update(scopes.len() - 1, last.update(i, (name, with_state_sym(last[i].1, state)))),
            None => update_state_in(scopes.drop_last(), name, state).push(last),
        }
    }
}

/// The number of symbols in all scopes.
pub open spec fn count_in(scopes: Seq<ScopeM>) -> nat
    decreases scopes.len(),
{
    if scopes.len() == 0 {
        0
    } else {
        count_in(scopes.drop_last()) + scopes.last().len()
    }
}

/// The model of a symbol table: its scopes (outermost first), its depth
/// counter and the errors reported so far.
pub struct TableM {
    pub scopes: Seq<ScopeM>,
    pub depth: usize,
    pub errors: Seq<Seq<char>>,
}

/// A symbol of a built-in function.
pub open spec fn builtin_symbol(name: Seq<char>, g: GanaType) -> SymbolM {
    SymbolM {
        name: name,
        base_name: name,
        karaka: Karaka::Default,
        resolved_type: ResolvedM::Known(g),
        depth: 0,
        is_function: true,
        param_count: 1,
        param_types: Seq::empty(),
        access_level: AccessModifier::Public,
    }
}

/// The global scope of a new table: the boolean constants and the built-in
/// functions with their result types.
pub open spec fn builtin_scope() -> ScopeM {
    seq![
        ("सत"@, builtin_symbol("सत"@, GanaType(10u8))),
        ("असत"@, builtin_symbol("असत"@, GanaType(10u8))),
        ("मुद्रण"@, builtin_symbol("मुद्रण"@, GanaType(8u8))),
        ("दैर्घ्यम्"@, builtin_symbol("दैर्घ्यम्"@, GanaType(15u8))),
        ("प्रकारः"@, builtin_symbol("प्रकारः"@, GanaType(9u8))),
        ("योजन"@, builtin_symbol("योजन"@, GanaType(9u8))),
        ("अस्ति"@, builtin_symbol("अस्ति"@, GanaType(10u8))),
        ("संख्या"@, builtin_symbol("संख्या"@, GanaType(15u8))),
        ("रूपान्तर"@, builtin_symbol("रूपान्तर"@, GanaType(9u8))),
    ]
}

/// Declaring a name in the innermost scope (nothing when no scope is open).
pub open spec fn t_insert(t: TableM, name: Seq<char>, sym: SymbolM) -> TableM {
    TableM {
        scopes: if t.scopes.len() > 0 {
            t.scopes.update(t.scopes.len() - 1, scope_insert(t.scopes.last(), name, sym))
        } else {
            t.scopes
        },
        ..t
    }
}

/// Opening a scope.
pub open spec fn t_push(t: TableM) -> TableM {
    TableM { scopes: t.scopes.push(Seq::empty()), depth: (t.depth + 1) as usize, ..t }
}

/// Closing the innermost scope.
pub open spec fn t_pop(t: TableM) -> TableM {
    TableM {
        scopes: if t.scopes.len() > 0 { t.scopes.drop_last() } else { t.scopes },
        depth: if t.depth > 0 { (t.depth - 1) as usize } else { 0 },
        ..t
    }
}

/// Reporting an error.
pub open spec fn t_err(t: TableM, m: Seq<char>) -> TableM {
    TableM { errors: t.errors.push(m), ..t }
}

/// Changing the state of a name.
pub open spec fn t_update(t: TableM, name: Seq<char>, state: u8) -> TableM {
    TableM { scopes: update_state_in(t.scopes, name, state), ..t }
}

/// Hierarchical scope-aware symbol table.
pub struct SymbolTable {
    scopes: Vec<NameMap<Symbol>>,
    pub current_depth: usize,
    errors: Vec<String>,
}

pub open spec fn scopes_m(s: Seq<NameMap<Symbol>>) -> Seq<ScopeM> {
    s.map_values(|m: NameMap<Symbol>| scope_m(m.entries@))
}

impl View for SymbolTable {
    type V = TableM;

    closed spec fn view(&self) -> TableM {
        TableM {
            scopes: scopes_m(self.scopes@),
            depth: self.current_depth,
            errors: self.errors@.map_values(|e: String| e@),
        }
    }
}

/// The index of a name lies within the scope and holds that name.
pub proof fn lemma_scope_index_range(scope: ScopeM, name: Seq<char>)
    ensures
        scope_index(scope, name) matches Some(i) ==> 0 <= i < scope.len() && scope[i].0 == name,
    decreases scope.len(),
{
    if scope.len() > 0 && scope[0].0 != name {
        lemma_scope_index_range(scope.drop_first(), name);
    }
}

/// Declaring a name in a scope makes it read back as the new symbol and
/// leaves every other name as it was.
pub proof fn lemma_scope_insert_get(scope: ScopeM, name: Seq<char>, sym: SymbolM, m: Seq<char>)
    ensures
        scope_get(scope_insert(scope, name, sym), m) == (if m == name { Some(sym) } else { scope_get(scope, m) }),
    decreases scope.len(),
{
    let x = (name, sym);
    if scope.len() == 0 {
        assert(scope_index(scope, name) is None);
        assert(scope_insert(scope, name, sym) =~= seq![x]);
        assert(seq![x].drop_first() =~= Seq::<(Seq<char>, SymbolM)>::empty());
        assert(scope_get(seq![x].drop_first(), m) is None);
        assert(scope_get(scope, m) is None);
    } else if scope[0].0 == name {
        assert(scope_index(scope, name) == Some(0int));
        let u = scope.update(0, x);
        assert(scope_insert(scope, name, sym) == u);
        assert(u.drop_first() =~= scope.drop_first());
        assert(u[0] == x);
    } else {
        lemma_scope_insert_get(scope.drop_first(), name, sym, m);
        lemma_scope_index_range(scope.drop_first(), name);
        let ins = scope_insert(scope, name, sym);
        match scope_index(scope.drop_first(), name) {
            Some(i) => {
                assert(scope_index(scope, name) == Some(i + 1));
                assert(ins == scope.update(i + 1, x));
                assert(ins.drop_first() =~= scope_insert(scope.drop_first(), name, sym));
            },
            None => {
                assert(scope_index(scope, name) is None);
                assert(ins == scope.push(x));
                assert(ins.drop_first() =~= scope_insert(scope.drop_first(), name, sym));
            },
        }
        assert(ins.len() > 0 && ins[0] == scope[0]);
    }
}

/// What the symbol table reads back after a declaration: the declared symbol
/// under its name, and for every other name what it read before.
pub proof fn law_table_read_after_declare(t: TableM, name: Seq<char>, sym: SymbolM, other: Seq<char>)
    requires
        t.scopes.len() > 0,
        other != name,
    ensures
        lookup_in(t_insert(t, name, sym).scopes, name) == Some(sym),
        lookup_in(t_insert(t, name, sym).scopes, other) == lookup_in(t.scopes, other),
{
    let sc = t_insert(t, name, sym).scopes;
    assert(sc.drop_last() =~= t.scopes.drop_last());
    lemma_scope_insert_get(t.scopes.last(), name, sym, name);
    lemma_scope_insert_get(t.scopes.last(), name, sym, other);
}

/// A declaration made in a scope is gone once that scope closes: opening a
/// scope, declaring in it and closing it gives back the table as it was.
pub proof fn law_table_scope_forgets(t: TableM, name: Seq<char>, sym: SymbolM)
    requires
        t.depth < usize::MAX,
    ensures
        t_pop(t_insert(t_push(t), name, sym)) == t,
{
    let r = t_pop(t_insert(t_push(t), name, sym));
    assert(r.scopes =~= t.scopes);
}

/// Closing a scope undoes opening one.
pub proof fn law_pop_undoes_push(t: TableM)
    requires
        t.depth < usize::MAX,
    ensures
        t_pop(t_push(t)) == t,
{
    assert(t_pop(t_push(t)).scopes =~= t.scopes);
}

/// How the number of symbols moves: opening a scope adds none, closing one
/// removes those of the innermost scope, and a declaration adds one where
/// the innermost scope did not hold the name yet and none where it replaces
/// a symbol.
pub proof fn law_symbol_count(t: TableM, name: Seq<char>, sym: SymbolM)
    requires
        t.depth < usize::MAX,
    ensures
        count_in(t_push(t).scopes) == count_in(t.scopes),
        t.scopes.len() > 0 ==> count_in(t_pop(t).scopes) + t.scopes.last().len() == count_in(t.scopes),
        t.scopes.len() > 0 ==> count_in(t_insert(t, name, sym).scopes)
            == count_in(t.scopes) + (if scope_index(t.scopes.last(), name) is None { 1int } else { 0int }),
{
    assert(t_push(t).scopes.drop_last() =~= t.scopes);
    if t.scopes.len() > 0 {
        let sc = t_insert(t, name, sym).scopes;
        assert(sc.drop_last() =~= t.scopes.drop_last());
        let ins = scope_insert(t.scopes.last(), name, sym);
        lemma_scope_index_range(t.scopes.last(), name);
        assert(sc.last() == ins);
        assert(ins.len() == t.scopes.last().len() + (if scope_index(t.scopes.last(), name) is None { 1int } else { 0int }));
        assert(count_in(sc) == count_in(sc.drop_last()) + sc.last().len());
        assert(count_in(t.scopes) == count_in(t.scopes.drop_last()) + t.scopes.last().len());
    }
}

/// Reported errors are handed over in the order of reporting, and
/// reporting touches neither the scopes nor the depth.
pub proof fn law_errors_in_order(t: TableM, m: Seq<char>)
    ensures
        t_err(t, m).errors == t.errors.push(m),
        t_err(t, m).scopes == t.scopes,
        t_err(t, m).depth == t.depth,
{
}

/// `assoc_index` over a scope's entries agrees with `scope_index` over its model.
pub proof fn lemma_scope_index(e: Seq<(String, Symbol)>, name: Seq<char>)
    ensures
        assoc_index(e, name) == scope_index(scope_m(e), name),
        assoc_get(e, name) matches Some(s) ==> scope_get(scope_m(e), name) == Some(s@),
        assoc_get(e, name) is None ==> scope_get(scope_m(e), name) is None,
    decreases e.len(),
{
    if e.len() > 0 {
        assert(scope_m(e).drop_first() =~= scope_m(e.drop_first()));
        lemma_scope_index(e.drop_first(), name);
    }
}

impl SymbolTable {
    fn builtin(name: &str, g: GanaType) -> (r: (String, Symbol))
        ensures
            r.0@ == name@,
            r.1@ == builtin_symbol(name@, g),
    {
        let e: Vec<(String, String, Karaka, ResolvedType)> = Vec::new();
        assert(params_m(e@) =~= Seq::<ParamM>::empty());
        (owned(name), Symbol {
            name: owned(name),
            base_name: owned(name),
            karaka: Karaka::Default,
            resolved_type: ResolvedType::Known(g),
            depth: 0,
            is_function: true,
            param_count: 1,
            param_types: e,
            access_level: AccessModifier::Public,
        })
    }

    /// A table with one global scope holding the built-in names.
    pub fn new() -> (r: Self)
        ensures
            r@ == (TableM { scopes: seq![builtin_scope()], depth: 0, errors: Seq::empty() }),
    {
        let entries = vec![
            Self::builtin("सत", GanaType::bool()),
            Self::builtin("असत", GanaType::bool()),
            Self::builtin("मुद्रण", GanaType::void()),
            Self::builtin("दैर्घ्यम्", GanaType::integer()),
            Self::builtin("प्रकारः", GanaType::str()),
            Self::builtin("योजन", GanaType::str()),
            Self::builtin("अस्ति", GanaType::bool()),
            Self::builtin("संख्या", GanaType::integer()),
            Self::builtin("रूपान्तर", GanaType::str()),
        ];
        let global = NameMap { entries };
        let r = SymbolTable { scopes: vec![global], current_depth: 0, errors: Vec::new() };
        proof {
            assert(scope_m(r.scopes@[0].entries@) =~= builtin_scope());
            assert(r@.scopes =~= seq![builtin_scope()]);
            assert(r@.errors =~= Seq::<Seq<char>>::empty());
        }
        r
    }

    /// Opens an inner scope.
    pub fn push_scope(&mut self)
        requires
            old(self)@.depth < usize::MAX,
        ensures
            final(self)@ == t_push(old(self)@),
    {
        self.current_depth = self.current_depth + 1;
        self.scopes.push(NameMap::new());
        proof {
            assert(scope_m(self.scopes@.last().entries@) =~= Seq::<(Seq<char>, SymbolM)>::empty());
            assert(self@.scopes =~= old(self)@.scopes.push(Seq::empty()));
        }
    }

    /// Closes the innermost scope.
    pub fn pop_scope(&mut self)
        ensures
            final(self)@ == t_pop(old(self)@),
    {
        let _ = self.scopes.pop();
        self.current_depth = if self.current_depth > 0 { self.current_depth - 1 } else { 0 };
        proof {
            if old(self).scopes@.len() > 0 {
                assert(self@.scopes =~= old(self)@.scopes.drop_last());
            }
        }
    }

    /// Declares `name` in the innermost scope (nothing happens when every
    /// scope has been closed).
    pub fn insert(&mut self, name: String, symbol: Symbol)
        ensures
            final(self)@ == t_insert(old(self)@, name@, symbol@),
    {
        let n = self.scopes.len();
        if n > 0 {
            let ghost old_e = self.scopes@[n - 1].entries@;
            let ghost nm = name@;
            let ghost sm = symbol@;
            proof {
                lemma_scope_index(old_e, nm);
                lemma_assoc_index(old_e, nm);
            }
            let mut last = self.scopes.pop().unwrap();
            last.insert(name, symbol);
            proof {
                let new_e = last.entries@;
                match assoc_index(old_e, nm) {
                    Some(i) => {
                        assert(scope_m(new_e) =~= scope_m(old_e).update(i, (nm, sm)));
                    },
                    None => {
                        assert(scope_m(new_e) =~= scope_m(old_e).push((nm, sm)));
                    },
                }
            }
            self.scopes.push(last);
            proof {
                assert(self@.scopes =~= old(self)@.scopes.update(n - 1, scope_insert(old(self)@.scopes.last(), nm, sm)));
            }
        }
    }

    /// Sets the state of `name` (where its type is known) in the innermost
    /// scope that declares it.
    pub fn update_state(&mut self, name: &str, new_state: u8)
        ensures
            final(self)@ == t_update(old(self)@, name@, new_state),
    {
        let ghost olds = self@.scopes;
        let mut i = self.scopes.len();
        while i > 0
            invariant
                i <= self.scopes@.len(),
                self.scopes@.len() == olds.len(),
                self@.depth == old(self)@.depth,
                self@.errors == old(self)@.errors,
                self@.scopes == olds,
                olds == old(self)@.scopes,
                forall|j: int| i <= j < olds.len() ==> scope_index(#[trigger] olds[j], name@) is None,
            decreases i,
        {
            let k = i - 1;
            proof {
                lemma_scope_index(self.scopes@[k as int].entries@, name@);
            }
            match self.scopes[k].index_of(name) {
                Some(idx) => {
                    proof {
                        lemma_assoc_index(self.scopes@[k as int].entries@, name@);
                    }
                    let ghost vold = self.scopes@;
                    let mut scope = self.scopes.remove(k);
                    let sym = clone_symbol(&scope.entries[idx].1);
                    let key = scope.entries[idx].0.clone();
                    let new_sym = match &sym.resolved_type {
                        ResolvedType::Known(g) => Symbol { resolved_type: ResolvedType::Known(g.with_state(new_state)), ..sym },
                        _ => sym,
                    };
                    let ghost e0 = scope.entries@;
                    scope.entries.set(idx, (key, new_sym));
                    proof {
                        assert(scope_m(scope.entries@) =~= scope_m(e0).update(idx as int, (name@, with_state_sym(scope_m(e0)[idx as int].1, new_state))));
                    }
                    self.scopes.insert(k, scope);
                    proof {
                        assert(self.scopes@ =~= vold.update(k as int, scope));
                        lemma_update_state_at(olds, name@, new_state, k as int, idx as int);
                        assert(self@.scopes =~= update_state_in(olds, name@, new_state));
                    }
                    return;
                },
                None => {},
            }
            i = k;
        }
        proof {
            lemma_update_state_none(olds, name@, new_state);
        }
    }

    /// The symbol of `name` in the innermost scope that declares it.
    pub fn lookup(&self, name: &str) -> (r: Option<&Symbol>)
        ensures
            r is Some == lookup_in(self@.scopes, name@) is Some,
            r matches Some(s) ==> lookup_in(self@.scopes, name@) == Some(s@),
    {
        let ghost sc = self@.scopes;
        assert(sc.subrange(0, sc.len() as int) =~= sc);
        let mut i = self.scopes.len();
        while i > 0
            invariant
                i <= self.scopes@.len(),
                sc == self@.scopes,
                lookup_in(sc, name@) == lookup_in(sc.subrange(0, i as int), name@),
            decreases i,
        {
            let k = i - 1;
            let ghost pre = sc.subrange(0, i as int);
            assert(pre.last() == sc[k as int]);
            assert(pre.drop_last() =~= sc.subrange(0, k as int));
            proof {
                lemma_scope_index(self.scopes@[k as int].entries@, name@);
                assert(sc[k as int] == scope_m(self.scopes@[k as int].entries@));
            }
            match self.scopes[k].get(name) {
                Some(s) => {
                    return Some(s);
                },
                None => {},
            }
            i = k;
        }
        assert(sc.subrange(0, 0) =~= Seq::<ScopeM>::empty());
        None
    }

    /// A symbol with the given base name and kāraka, innermost scope first
    /// and, within a scope, in declaration order.
    pub fn lookup_base(&self, base_name: &str, karaka: Karaka) -> (r: Option<&Symbol>)
        ensures
            r is Some == lookup_base_in(self@.scopes, base_name@, karaka) is Some,
            r matches Some(s) ==> lookup_base_in(self@.scopes, base_name@, karaka) == Some(s@),
    {
        let ghost sc = self@.scopes;
        assert(sc.subrange(0, sc.len() as int) =~= sc);
        let mut i = self.scopes.len();
        while i > 0
            invariant
                i <= self.scopes@.len(),
                sc == self@.scopes,
                lookup_base_in(sc, base_name@, karaka) == lookup_base_in(sc.subrange(0, i as int), base_name@, karaka),
            decreases i,
        {
            let k = i - 1;
            let ghost pre = sc.subrange(0, i as int);
            assert(pre.last() == sc[k as int]);
            assert(pre.drop_last() =~= sc.subrange(0, k as int));
            assert(pre.len() > 0);
            let entries = &self.scopes[k].entries;
            let ghost sm = scope_m(entries@);
            assert(sm == sc[k as int]);
            assert(sm.subrange(0, sm.len() as int) =~= sm);
            let mut j: usize = 0;
            while j < entries.len()
                invariant
                    j <= entries@.len(),
                    sm == scope_m(entries@),
                    scope_find_base(sm, base_name@, karaka) == scope_find_base(sm.subrange(j as int, sm.len() as int), base_name@, karaka),
                    sm == sc[k as int],
                    sc == self@.scopes,
                    pre == sc.subrange(0, i as int),
                    pre.last() == sc[k as int],
                    lookup_base_in(sc, base_name@, karaka) == lookup_base_in(pre, base_name@, karaka),
                    lookup_base_in(pre, base_name@, karaka) == (match scope_find_base(sm, base_name@, karaka) {
                        Some(x) => Some(x),
                        None => lookup_base_in(pre.drop_last(), base_name@, karaka),
                    }),
                decreases entries@.len() - j,
            {
                let ghost rest = sm.subrange(j as int, sm.len() as int);
                assert(rest[0] == (entries@[j as int].0@, entries@[j as int].1@));
                assert(rest.drop_first() =~= sm.subrange(j + 1, sm.len() as int));
                let sym = &entries[j].1;
                if str_eq(sym.base_name.as_str(), base_name) && sym.karaka == karaka {
                    return Some(sym);
                }
                j = j + 1;
            }
            assert(sm.subrange(j as int, sm.len() as int) =~= Seq::<(Seq<char>, SymbolM)>::empty());
            i = k;
        }
        assert(sc.subrange(0, 0) =~= Seq::<ScopeM>::empty());
        None
    }

    pub fn push_error(&mut self, msg: String)
        ensures
            final(self)@ == t_err(old(self)@, msg@),
    {
        self.errors.push(msg);
        assert(self@.errors =~= old(self)@.errors.push(msg@));
    }

    /// Hands over the errors reported so far and forgets them.
    pub fn take_errors(&mut self) -> (r: Vec<String>)
        ensures
            r@.map_values(|e: String| e@) == old(self)@.errors,
            final(self)@ == (TableM { errors: Seq::empty(), ..old(self)@ }),
    {
        let mut r: Vec<String> = Vec::new();
        std::mem::swap(&mut r, &mut self.errors);
        assert(self@.errors =~= Seq::<Seq<char>>::empty());
        r
    }

    pub fn has_errors(&self) -> (r: bool)
        ensures
            r == (self@.errors.len() > 0),
    {
        self.errors.len() > 0
    }

    /// Total count of live symbol entries across all scopes.
    pub fn symbol_count(&self) -> (r: usize)
        requires
            count_in(self@.scopes) <= usize::MAX,
        ensures
            r == count_in(self@.scopes),
    {
        let ghost sc = self@.scopes;
        let mut total: usize = 0;
        let mut i: usize = 0;
        while i < self.scopes.len()
            invariant
                i <= self.scopes@.len(),
                sc == self@.scopes,
                count_in(sc) <= usize::MAX,
                total == count_in(sc.subrange(0, i as int)),
            decreases self.scopes@.len() - i,
        {
            proof {
                assert(sc.subrange(0, i + 1).drop_last() =~= sc.subrange(0, i as int));
                lemma_count_prefix(sc, i + 1);
            }
            total = total + self.scopes[i].entries.len();
            i = i + 1;
        }
        assert(sc.subrange(0, i as int) =~= sc);
        total
    }
}

/// The count of a prefix of the scopes is at most the count of all.
pub proof fn lemma_count_prefix(sc: Seq<ScopeM>, n: int)
    requires
        0 <= n <= sc.len(),
    ensures
        count_in(sc.subrange(0, n)) <= count_in(sc),
    decreases sc.len() - n,
{
    if n < sc.len() {
        lemma_count_prefix(sc, n + 1);
        assert(sc.subrange(0, n + 1).drop_last() =~= sc.subrange(0, n));
    } else {
        assert(sc.subrange(0, n) =~= sc);
    }
}

pub proof fn lemma_update_state_at(scopes: Seq<ScopeM>, name: Seq<char>, state: u8, k: int, idx: int)
    requires
        0 <= k < scopes.len(),
        scope_index(scopes[k], name) == Some(idx),
        forall|j: int| k < j < scopes.len() ==> scope_index(#[trigger] scopes[j], name) is None,
    ensures
        update_state_in(scopes, name, state)
            == scopes.update(k, scopes[k].update(idx, (name, with_state_sym(scopes[k][idx].1, state)))),
    decreases scopes.len(),
{
    if k < scopes.len() - 1 {
        lemma_update_state_at(scopes.drop_last(), name, state, k, idx);
        assert(scopes.drop_last().update(k, scopes[k].update(idx, (name, with_state_sym(scopes[k][idx].1, state)))).push(scopes.last())
            =~= scopes.update(k, scopes[k].update(idx, (name, with_state_sym(scopes[k][idx].1, state)))));
    }
}

pub proof fn lemma_update_state_none(scopes: Seq<ScopeM>, name: Seq<char>, state: u8)
    requires
        forall|j: int| 0 <= j < scopes.len() ==> scope_index(#[trigger] scopes[j], name) is None,
    ensures
        update_state_in(scopes, name, state) == scopes,
    decreases scopes.len(),
{
    if scopes.len() > 0 {
        lemma_update_state_none(scopes.drop_last(), name, state);
        assert(scopes.drop_last().push(scopes.last()) =~= scopes);
    }
}

/// Changing the state of a name touches only the innermost scope that
/// declares it, and there only that name's entry: outer scopes, inner
/// scopes and every other entry stay as they were.
pub proof fn law_update_state_innermost(scopes: Seq<ScopeM>, name: Seq<char>, state: u8, k: int, idx: int)
    requires
        0 <= k < scopes.len(),
        scope_index(scopes[k], name) == Some(idx),
        forall|j: int| k < j < scopes.len() ==> scope_index(#[trigger] scopes[j], name) is None,
    ensures
        update_state_in(scopes, name, state).len() == scopes.len(),
        forall|j: int| 0 <= j < scopes.len() && j != k ==> #[trigger] update_state_in(scopes, name, state)[j] == scopes[j],
        update_state_in(scopes, name, state)[k].len() == scopes[k].len(),
        forall|i: int| 0 <= i < scopes[k].len() && i != idx
            ==> #[trigger] update_state_in(scopes, name, state)[k][i] == scopes[k][i],
        update_state_in(scopes, name, state)[k][idx] == (name, with_state_sym(scopes[k][idx].1, state)),
{
    lemma_scope_index_range(scopes[k], name);
    lemma_update_state_at(scopes, name, state, k, idx);
}

/// Reading a name in a scope finds the entry at its index.
pub proof fn lemma_scope_get_index(scope: ScopeM, name: Seq<char>)
    ensures
        scope_get(scope, name) == (match scope_index(scope, name) {
            Some(i) => Some(scope[i].1),
            None => None::<SymbolM>,
        }),
    decreases scope.len(),
{
    if scope.len() > 0 && scope[0].0 != name {
        lemma_scope_get_index(scope.drop_first(), name);
        lemma_scope_index_range(scope.drop_first(), name);
    }
}

/// What reads give back after a state change, over the scopes.
pub proof fn lemma_update_state_reads(scopes: Seq<ScopeM>, name: Seq<char>, state: u8, other: Seq<char>)
    ensures
        lookup_in(update_state_in(scopes, name, state), name) == (match lookup_in(scopes, name) {
            Some(sym) => Some(with_state_sym(sym, state)),
            None => None::<SymbolM>,
        }),
        other != name ==> lookup_in(update_state_in(scopes, name, state), other) == lookup_in(scopes, other),
    decreases scopes.len(),
{
    if scopes.len() > 0 {
        let last = scopes.last();
        let r = update_state_in(scopes, name, state);
        lemma_scope_get_index(last, name);
        lemma_scope_index_range(last, name);
        match scope_index(last, name) {
            Some(i) => {
                let sym2 = with_state_sym(last[i].1, state);
                let l2 = last.update(i, (name, sym2));
                assert(scope_insert(last, name, sym2) == l2);
                lemma_scope_insert_get(last, name, sym2, name);
                lemma_scope_insert_get(last, name, sym2, other);
                assert(r == scopes.update(scopes.len() - 1, l2));
                assert(r.last() == l2);
                assert(r.drop_last() =~= scopes.drop_last());
            },
            None => {
                lemma_update_state_reads(scopes.drop_last(), name, state, other);
                assert(r == update_state_in(scopes.drop_last(), name, state).push(last));
                assert(r.last() == last);
                assert(r.drop_last() =~= update_state_in(scopes.drop_last(), name, state));
            },
        }
    }
}

/// Where the scopes hold no symbol of a name, none of them has an entry
/// for it; otherwise the innermost scope with an entry holds the symbol read.
pub proof fn lemma_lookup_index(scopes: Seq<ScopeM>, name: Seq<char>)
    ensures
        lookup_in(scopes, name) is None ==> forall|j: int| 0 <= j < scopes.len() ==> scope_index(#[trigger] scopes[j], name) is None,
        lookup_in(scopes, name) matches Some(sym) ==> exists|k: int, i: int| 0 <= k < scopes.len()
            && scope_index(scopes[k], name) == Some(i) && #[trigger] scopes[k][i] == (name, sym)
            && (forall|j: int| k < j < scopes.len() ==> scope_index(#[trigger] scopes[j], name) is None),
    decreases scopes.len(),
{
    if scopes.len() > 0 {
        let last = scopes.last();
        lemma_scope_get_index(last, name);
        lemma_scope_index_range(last, name);
        lemma_lookup_index(scopes.drop_last(), name);
        let d = scopes.drop_last();
        match scope_index(last, name) {
            Some(i) => {
                let k = scopes.len() - 1;
                assert(scopes[k][i] == (name, last[i].1));
            },
            None => {
                assert forall|j: int| 0 <= j < d.len() implies d[j] == scopes[j] by {}
                if let Some(sym) = lookup_in(scopes, name) {
                    let (k, i) = choose|k: int, i: int| 0 <= k < d.len()
                        && scope_index(d[k], name) == Some(i) && #[trigger] d[k][i] == (name, sym)
                        && (forall|j: int| k < j < d.len() ==> scope_index(#[trigger] d[j], name) is None);
                    assert(scopes[k] == d[k]);
                    assert forall|j: int| k < j < scopes.len() implies scope_index(#[trigger] scopes[j], name) is None by {
                        if j < d.len() {
                            assert(scopes[j] == d[j]);
                        }
                    }
                    assert(scopes[k][i] == (name, sym));
                }
            },
        }
    }
}

/// A state change leaves the table as it is where no scope declares the
/// name, and where the symbol found has no known type.
pub proof fn law_update_state_unchanged(t: TableM, name: Seq<char>, state: u8)
    ensures
        lookup_in(t.scopes, name) is None ==> t_update(t, name, state) == t,
        lookup_in(t.scopes, name) matches Some(sym) && !(sym.resolved_type is Known) ==> t_update(t, name, state) == t,
{
    lemma_lookup_index(t.scopes, name);
    if lookup_in(t.scopes, name) is None {
        lemma_update_state_none(t.scopes, name, state);
    } else if let Some(sym) = lookup_in(t.scopes, name) {
        if !(sym.resolved_type is Known) {
            let (k, i) = choose|k: int, i: int| 0 <= k < t.scopes.len()
                && scope_index(t.scopes[k], name) == Some(i) && #[trigger] t.scopes[k][i] == (name, sym)
                && (forall|j: int| k < j < t.scopes.len() ==> scope_index(#[trigger] t.scopes[j], name) is None);
            lemma_scope_index_range(t.scopes[k], name);
            lemma_update_state_at(t.scopes, name, state, k, i);
            assert(with_state_sym(t.scopes[k][i].1, state) == sym);
            assert(t.scopes[k].update(i, (name, sym)) =~= t.scopes[k]);
            assert(t.scopes.update(k, t.scopes[k]) =~= t.scopes);
            assert(t_update(t, name, state).scopes =~= t.scopes);
        }
    }
}

/// A state change reads back on the changed name as the symbol it found
/// with the new state, leaves every other name reading as before, keeps
/// the depth and the errors, and, where the innermost scope declares the
/// name, leaves everything outside that scope untouched: closing the scope
/// afterwards gives the same table as closing it before.
pub proof fn law_update_state_innermost_binding(t: TableM, name: Seq<char>, state: u8, other: Seq<char>)
    ensures
        lookup_in(t_update(t, name, state).scopes, name) == (match lookup_in(t.scopes, name) {
            Some(sym) => Some(with_state_sym(sym, state)),
            None => None::<SymbolM>,
        }),
        other != name ==> lookup_in(t_update(t, name, state).scopes, other) == lookup_in(t.scopes, other),
        t_update(t, name, state).depth == t.depth,
        t_update(t, name, state).errors == t.errors,
        t.scopes.len() > 0 && scope_index(t.scopes.last(), name) is Some
            ==> t_pop(t_update(t, name, state)) == t_pop(t),
{
    lemma_update_state_reads(t.scopes, name, state, other);
    if t.scopes.len() > 0 && scope_index(t.scopes.last(), name) is Some {
        let i = scope_index(t.scopes.last(), name)->0;
        lemma_scope_index_range(t.scopes.last(), name);
        let u = update_state_in(t.scopes, name, state);
        assert(u.len() == t.scopes.len());
        assert(u.drop_last() =~= t.scopes.drop_last());
        assert(t_pop(t_update(t, name, state)).scopes =~= t_pop(t).scopes);
    }
}

/// Changing the state of a name that no scope declares changes nothing.
pub proof fn law_update_state_undeclared(scopes: Seq<ScopeM>, name: Seq<char>, state: u8)
    requires
        forall|j: int| 0 <= j < scopes.len() ==> scope_index(#[trigger] scopes[j], name) is None,
    ensures
        update_state_in(scopes, name, state) == scopes,
{
    lemma_update_state_none(scopes, name, state);
}

/// The kāraka of an argument: that of a variable's name, else `Default`.
pub open spec fn arg_karaka(e: ExprM) -> Karaka {
    match e {
        ExprM::Variable(n) => karaka_of(n).1,
        _ => Karaka::Default,
    }
}

/// The first parameter from `p` on that is still free and has kāraka `k`.
pub open spec fn first_free(pk: Seq<Karaka>, assign: Seq<Option<int>>, k: Karaka, p: int) -> Option<int>
    decreases pk.len() - p,
{
    if p < 0 || p >= pk.len() {
        None
    } else if assign[p] is None && pk[p] == k {
        Some(p)
    } else {
        first_free(pk, assign, k, p + 1)
    }
}

/// First pass: each tagged argument from `i` on, in order, takes the first
/// free parameter with its kāraka; the error names a tag with no parameter.
pub open spec fn bind_tagged(pk: Seq<Karaka>, args: Seq<ExprM>, i: int, assign: Seq<Option<int>>) -> Result<Seq<Option<int>>, (Karaka, int)>
    decreases args.len() - i,
{
    if i < 0 || i >= args.len() {
        Ok(assign)
    } else if arg_karaka(args[i]) == Karaka::Default {
        bind_tagged(pk, args, i + 1, assign)
    } else {
        match first_free(pk, assign, arg_karaka(args[i]), 0) {
            Some(p) => bind_tagged(pk, args, i + 1, assign.update(p, Some(i))),
            None => Err((arg_karaka(args[i]), i)),
        }
    }
}

/// The untagged arguments from `i` on, in order.
pub open spec fn positional(args: Seq<ExprM>, i: int) -> Seq<int>
    decreases args.len() - i,
{
    if i < 0 || i >= args.len() {
        Seq::empty()
    } else if arg_karaka(args[i]) == Karaka::Default {
        seq![i] + positional(args, i + 1)
    } else {
        positional(args, i + 1)
    }
}

/// Second pass: each free parameter from `p` on, in order, takes the next
/// untagged argument; the error names a parameter left without one.
pub open spec fn bind_positional(assign: Seq<Option<int>>, p: int, pos: Seq<int>) -> Result<Seq<Option<int>>, int>
    decreases assign.len() - p,
{
    if p < 0 || p >= assign.len() {
        Ok(assign)
    } else if assign[p] is Some {
        bind_positional(assign, p + 1, pos)
    } else if pos.len() == 0 {
        Err(p)
    } else {
        bind_positional(assign.update(p, Some(pos[0])), p + 1, pos.drop_first())
    }
}

/// Binding call arguments to parameters by kāraka, with positional
/// fallback: for each parameter the index of its argument, or the error
/// message.
pub open spec fn resolve_order(params: Seq<ParamM>, args: Seq<ExprM>) -> Result<Seq<int>, Seq<char>> {
    let n = params.len();
    if args.len() != n {
        Err("expected "@ + decimal(n) + " arguments, got "@ + decimal(args.len()))
    } else {
        let pk = params.map_values(|p: ParamM| p.2);
        match bind_tagged(pk, args, 0, Seq::new(n, |i: int| None::<int>)) {
            Err((k, i)) => Err("no parameter with kāraka "@ + karaka_debug(k) + " found for argument "@ + decimal(i as nat)),
            Ok(a1) => match bind_positional(a1, 0, positional(args, 0)) {
                Err(p) => Err("not enough positional arguments for parameter '"@ + params[p].0 + "'"@),
                Ok(a2) => Ok(Seq::new(n, |p: int| a2[p]->0)),
            },
        }
    }
}

/// The arguments in parameter order, or the error message.
pub open spec fn resolve_spec(params: Seq<ParamM>, args: Seq<ExprM>) -> Result<Seq<ExprM>, Seq<char>> {
    match resolve_order(params, args) {
        Ok(o) => Ok(o.map_values(|i: int| args[i])),
        Err(m) => Err(m),
    }
}

/// The kāraka of an argument expression.
fn arg_karaka_of(e: &Expression) -> (r: Karaka)
    ensures
        r == arg_karaka(e@),
{
    match e {
        Expression::Variable(name) => extract_karaka(name.as_str()).1,
        _ => Karaka::Default,
    }
}

/// Binds call arguments to parameters by kāraka tags; untagged parameters
/// take the untagged arguments in order.  Returns the arguments in
/// parameter order.
#[verifier::rlimit(40)]
fn resolve_positions(param_types: &[(String, String, Karaka, ResolvedType)], args: &[Expression]) -> (r: Result<Vec<usize>, String>)
    ensures
        match resolve_order(params_m(param_types@), exprs_m(args@)) {
            Ok(o) => r matches Ok(x) && idx_m(x@) == o && (forall|j: int| 0 <= j < x@.len() ==> #[trigger] x@[j] < args@.len()),
            Err(m) => r matches Err(x) && x@ == m,
        },
{
    let n = param_types.len();
    let ghost pm = params_m(param_types@);
    let ghost am = exprs_m(args@);
    proof {
        lemma_exprs_m(args@);
    }
    if args.len() != n {
        let mut m = owned("expected ");
        push_str(&mut m, usize_text(n).as_str());
        push_str(&mut m, " arguments, got ");
        push_str(&mut m, usize_text(args.len()).as_str());
        return Err(m);
    }
    let ghost pk = pm.map_values(|p: ParamM| p.2);
    let mut assign: Vec<Option<usize>> = Vec::new();
    let mut z: usize = 0;
    while z < n
        invariant
            z <= n,
            assign@.len() == z,
            forall|j: int| 0 <= j < z ==> assign@[j] is None,
        decreases n - z,
    {
        assign.push(None);
        z = z + 1;
    }
    let ghost a0 = Seq::new(n as nat, |i: int| None::<int>);
    assert(assign@.map_values(|o: Option<usize>| match o { Some(x) => Some(x as int), None => None::<int> }) =~= a0);
    // First pass: tagged arguments.
    let mut i: usize = 0;
    while i < args.len()
        invariant
            n == args@.len(),
            n == param_types@.len(),
            pm == params_m(param_types@),
            am == exprs_m(args@),
            am.len() == n,
            pk == pm.map_values(|p: ParamM| p.2),
            forall|j: int| 0 <= j < args@.len() ==> #[trigger] am[j] == expr_m(args@[j]),
            i <= n,
            assign@.len() == n,
            forall|j: int| 0 <= j < n ==> (#[trigger] assign@[j] matches Some(x) ==> x < n),
            bind_tagged(pk, am, 0, a0) == bind_tagged(pk, am, i as int, opt_m(assign@)),
            a0 == Seq::new(n as nat, |i: int| None::<int>),
        decreases n - i,
    {
        let k = arg_karaka_of(&args[i]);
        let ghost before = opt_m(assign@);
        assert(am[i as int] == args@[i as int]@);
        if k != Karaka::Default {
            match find_free(param_types, &assign, k) {
                Some(p) => {
                    assign.set(p, Some(i));
                    assert(opt_m(assign@) =~= before.update(p as int, Some(i as int)));
                },
                None => {
                    let mut m = owned("no parameter with kāraka ");
                    push_str(&mut m, karaka_debug_str(k));
                    push_str(&mut m, " found for argument ");
                    push_str(&mut m, usize_text(i).as_str());
                    return Err(m);
                },
            }
        }
        i = i + 1;
    }
    assert(bind_tagged(pk, am, n as int, opt_m(assign@)) == Ok::<Seq<Option<int>>, (Karaka, int)>(opt_m(assign@)));
    // Second pass: untagged arguments fill the free parameters in order.
    let mut pos: Vec<usize> = Vec::new();
    let mut j: usize = 0;
    assert(positional(am, 0) == positional(am, 0));
    while j < args.len()
        invariant
            j <= n,
            n == args@.len(),
            am == exprs_m(args@),
            am.len() == n,
            forall|q: int| 0 <= q < args@.len() ==> #[trigger] am[q] == expr_m(args@[q]),
            positional(am, 0) == idx_m(pos@) + positional(am, j as int),
            forall|q: int| 0 <= q < pos@.len() ==> #[trigger] pos@[q] < n,
        decreases n - j,
    {
        let k = arg_karaka_of(&args[j]);
        let ghost old_pos = idx_m(pos@);
        assert(am[j as int] == args@[j as int]@);
        if k == Karaka::Default {
            pos.push(j);
            assert(positional(am, j as int) == seq![j as int] + positional(am, j + 1));
            assert(idx_m(pos@) =~= old_pos.push(j as int));
            assert(old_pos + (seq![j as int] + positional(am, j + 1)) =~= idx_m(pos@) + positional(am, j + 1));
        } else {
            assert(positional(am, j as int) == positional(am, j + 1));
        }
        j = j + 1;
    }
    assert(idx_m(pos@) + positional(am, n as int) =~= idx_m(pos@));
    assert(idx_m(pos@).subrange(0, pos@.len() as int) =~= idx_m(pos@));
    let mut next: usize = 0;
    let mut p: usize = 0;
    while p < n
        invariant
            p <= n,
            next <= pos@.len(),
            assign@.len() == n,
            n == param_types@.len(),
            pm == params_m(param_types@),
            forall|q: int| 0 <= q < pos@.len() ==> #[trigger] pos@[q] < n,
            forall|q: int| 0 <= q < n ==> (#[trigger] assign@[q] matches Some(x) ==> x < n),
            forall|q: int| 0 <= q < p ==> #[trigger] assign@[q] is Some,
            bind_tagged(pk, am, 0, a0) matches Ok(a1) && bind_positional(a1, 0, positional(am, 0))
                == bind_positional(opt_m(assign@), p as int, idx_m(pos@).subrange(next as int, pos@.len() as int)),
            a0 == Seq::new(n as nat, |i: int| None::<int>),
            pk == pm.map_values(|p: ParamM| p.2),
            am == exprs_m(args@),
            n == args@.len(),
            am.len() == n,
        decreases n - p,
    {
        let ghost rest = idx_m(pos@).subrange(next as int, pos@.len() as int);
        if assign[p].is_none() {
            if next >= pos.len() {
                assert(pm[p as int].0 == param_types@[p as int].0@);
                let mut m = owned("not enough positional arguments for parameter '");
                push_str(&mut m, param_types[p].0.as_str());
                push_str(&mut m, "'");
                return Err(m);
            }
            let ghost before = opt_m(assign@);
            assign.set(p, Some(pos[next]));
            assert(opt_m(assign@) =~= before.update(p as int, Some(pos@[next as int] as int)));
            assert(rest.drop_first() =~= idx_m(pos@).subrange(next + 1, pos@.len() as int));
            next = next + 1;
        }
        p = p + 1;
    }
    let mut out: Vec<usize> = Vec::new();
    let mut q: usize = 0;
    while q < n
        invariant
            q <= n,
            assign@.len() == n,
            n == args@.len(),
            forall|t: int| 0 <= t < n ==> (#[trigger] assign@[t] matches Some(x) ==> x < n),
            forall|t: int| 0 <= t < n ==> #[trigger] assign@[t] is Some,
            out@.len() == q,
            forall|t: int| 0 <= t < q ==> #[trigger] out@[t] == assign@[t]->0 && out@[t] < n,
        decreases n - q,
    {
        let a = match assign[q] {
            Some(a) => a,
            None => 0,
        };
        out.push(a);
        q = q + 1;
    }
    proof {
        let a2 = opt_m(assign@);
        assert(idx_m(out@) =~= Seq::new(n as nat, |t: int| a2[t]->0));
    }
    Ok(out)
}

/// Binds call arguments to parameters by kāraka tags; untagged parameters
/// take the untagged arguments in order.  Returns the arguments in
/// parameter order.
pub fn resolve_args_by_karaka(param_types: &[(String, String, Karaka, ResolvedType)], args: &[Expression]) -> (r: Result<Vec<Expression>, String>)
    ensures
        match resolve_spec(params_m(param_types@), exprs_m(args@)) {
            Ok(v) => r matches Ok(x) && exprs_m(x@) == v,
            Err(m) => r matches Err(x) && x@ == m,
        },
{
    let order = match resolve_positions(param_types, args) {
        Ok(o) => o,
        Err(m) => {
            return Err(m);
        },
    };
    proof {
        lemma_exprs_m(args@);
    }
    let mut out: Vec<Expression> = Vec::new();
    let mut q: usize = 0;
    while q < order.len()
        invariant
            q <= order@.len(),
            forall|t: int| 0 <= t < order@.len() ==> #[trigger] order@[t] < args@.len(),
            out@.len() == q,
            forall|t: int| 0 <= t < q ==> #[trigger] expr_m(out@[t]) == expr_m(args@[order@[t] as int]),
        decreases order@.len() - q,
    {
        out.push(clone_expr(&args[order[q]]));
        q = q + 1;
    }
    proof {
        lemma_exprs_m(out@);
        assert(exprs_m(out@) =~= idx_m(order@).map_values(|i: int| exprs_m(args@)[i]));
    }
    Ok(out)
}

/// The first free parameter with kāraka `k`.
fn find_free(param_types: &[(String, String, Karaka, ResolvedType)], assign: &Vec<Option<usize>>, k: Karaka) -> (r: Option<usize>)
    requires
        assign@.len() == param_types@.len(),
    ensures
        r matches Some(p) ==> first_free(params_m(param_types@).map_values(|p: ParamM| p.2), opt_m(assign@), k, 0) == Some(p as int)
            && p < assign@.len(),
        r is None ==> first_free(params_m(param_types@).map_values(|p: ParamM| p.2), opt_m(assign@), k, 0) is None,
{
    let ghost pk = params_m(param_types@).map_values(|p: ParamM| p.2);
    let mut p: usize = 0;
    while p < assign.len()
        invariant
            p <= assign@.len(),
            assign@.len() == param_types@.len(),
            pk == params_m(param_types@).map_values(|p: ParamM| p.2),
            first_free(pk, opt_m(assign@), k, 0) == first_free(pk, opt_m(assign@), k, p as int),
        decreases assign@.len() - p,
    {
        assert(pk[p as int] == param_types@[p as int].2);
        if assign[p].is_none() && param_types[p].2 == k {
            return Some(p);
        }
        p = p + 1;
    }
    None
}

/// An assignment of arguments to parameters, as integers.
pub open spec fn opt_m(s: Seq<Option<usize>>) -> Seq<Option<int>> {
    s.map_values(|o: Option<usize>| match o {
        Some(x) => Some(x as int),
        None => None::<int>,
    })
}

/// Indices, as integers.
pub open spec fn idx_m(s: Seq<usize>) -> Seq<int> {
    s.map_values(|x: usize| x as int)
}

/// Where no argument carries a kāraka tag, the arguments bind in order.
pub proof fn lemma_resolve_positional(params: Seq<ParamM>, args: Seq<ExprM>)
    requires
        args.len() == params.len(),
        forall|i: int| 0 <= i < args.len() ==> arg_karaka(#[trigger] args[i]) == Karaka::Default,
    ensures
        resolve_spec(params, args) == Ok::<Seq<ExprM>, Seq<char>>(args),
{
    let n = params.len();
    let pk = params.map_values(|p: ParamM| p.2);
    let a0 = Seq::new(n, |i: int| None::<int>);
    lemma_bind_tagged_untagged(pk, args, 0, a0);
    lemma_positional_all(args, 0);
    lemma_bind_positional_all(a0, 0, positional(args, 0));
    let a2 = Seq::new(n, |i: int| Some(i));
    assert(Seq::new(n, |p: int| a2[p]->0).map_values(|i: int| args[i]) =~= args);
}

pub proof fn lemma_bind_tagged_untagged(pk: Seq<Karaka>, args: Seq<ExprM>, i: int, assign: Seq<Option<int>>)
    requires
        0 <= i,
        forall|j: int| 0 <= j < args.len() ==> arg_karaka(#[trigger] args[j]) == Karaka::Default,
    ensures
        bind_tagged(pk, args, i, assign) == Ok::<Seq<Option<int>>, (Karaka, int)>(assign),
    decreases args.len() - i,
{
    if i < args.len() {
        lemma_bind_tagged_untagged(pk, args, i + 1, assign);
    }
}

/// Whether some parameter carries the kāraka `k`.
#[verifier::opaque]
pub open spec fn has_param_tagged(params: Seq<ParamM>, k: Karaka) -> bool {
    exists|p: int| 0 <= p < params.len() && params[p].2 == k
}

/// Whether some argument is tagged with the kāraka `k`.
#[verifier::opaque]
pub open spec fn has_arg_tagged(args: Seq<ExprM>, k: Karaka) -> bool {
    exists|j: int| 0 <= j < args.len() && arg_karaka(args[j]) == k
}

/// The only parameter with kāraka `k` from `s` on is the first free one.
proof fn lemma_first_free_unique(pk: Seq<Karaka>, assign: Seq<Option<int>>, k: Karaka, s: int, p0: int)
    requires
        0 <= s <= p0 < pk.len(),
        assign.len() == pk.len(),
        pk[p0] == k,
        assign[p0] is None,
        forall|p: int| s <= p < p0 ==> #[trigger] pk[p] != k,
    ensures
        first_free(pk, assign, k, s) == Some(p0),
    decreases p0 - s,
{
    if s < p0 {
        lemma_first_free_unique(pk, assign, k, s + 1, p0);
    }
}

/// Whether an argument carries a kāraka tag.
pub open spec fn is_tagged(args: Seq<ExprM>, j: int) -> bool {
    arg_karaka(args[j]) != Karaka::Default
}

/// No argument index is bound to two parameters.
pub open spec fn binds_distinct(a: Seq<Option<int>>) -> bool {
    forall|p: int, q: int| 0 <= p < a.len() && 0 <= q < a.len() && p != q && #[trigger] a[p] is Some && #[trigger] a[q] is Some
        ==> a[p]->0 != a[q]->0
}

/// A free parameter found from `s` on is free, in range and carries `k`.
proof fn lemma_first_free_found(pk: Seq<Karaka>, assign: Seq<Option<int>>, k: Karaka, s: int)
    requires
        s >= 0,
    ensures
        first_free(pk, assign, k, s) matches Some(p) ==> s <= p < pk.len() && assign[p] is None && pk[p] == k,
    decreases pk.len() - s,
{
    if s < pk.len() && !(assign[s] is None && pk[s] == k) {
        lemma_first_free_found(pk, assign, k, s + 1);
    }
}

/// The untagged arguments from `i` on are in range, untagged and rising.
proof fn lemma_positional_shape(args: Seq<ExprM>, i: int)
    requires
        i >= 0,
    ensures
        forall|k: int| 0 <= k < positional(args, i).len() ==> i <= #[trigger] positional(args, i)[k] < args.len()
            && !is_tagged(args, positional(args, i)[k]),
        forall|k: int, l: int| 0 <= k < l < positional(args, i).len() ==> #[trigger] positional(args, i)[k] < #[trigger] positional(args, i)[l],
    decreases args.len() - i,
{
    if i < args.len() {
        lemma_positional_shape(args, i + 1);
        let rest = positional(args, i + 1);
        if arg_karaka(args[i]) == Karaka::Default {
            let ps = positional(args, i);
            assert(ps == seq![i] + rest);
            assert forall|k: int| 0 <= k < ps.len() implies i <= #[trigger] ps[k] < args.len() && !is_tagged(args, ps[k]) by {
                if k > 0 {
                    assert(ps[k] == rest[k - 1]);
                }
            }
            assert forall|k: int, l: int| 0 <= k < l < ps.len() implies #[trigger] ps[k] < #[trigger] ps[l] by {
                assert(ps[l] == rest[l - 1]);
                if k > 0 {
                    assert(ps[k] == rest[k - 1]);
                }
            }
        }
    }
}

/// The first pass binds tagged arguments only, each at most once.
proof fn lemma_bind_tagged_shape(pk: Seq<Karaka>, args: Seq<ExprM>, i: int, assign: Seq<Option<int>>)
    requires
        i >= 0,
        assign.len() == pk.len(),
        forall|p: int| 0 <= p < assign.len() && #[trigger] assign[p] is Some ==> 0 <= assign[p]->0 < i && assign[p]->0 < args.len()
            && is_tagged(args, assign[p]->0),
        binds_distinct(assign),
    ensures
        bind_tagged(pk, args, i, assign) matches Ok(a) ==> a.len() == pk.len()
            && (forall|p: int| 0 <= p < a.len() && #[trigger] a[p] is Some ==> 0 <= a[p]->0 < args.len() && is_tagged(args, a[p]->0))
            && binds_distinct(a),
    decreases args.len() - i,
{
    if i < args.len() && arg_karaka(args[i]) == Karaka::Default {
        lemma_bind_tagged_shape(pk, args, i + 1, assign);
    } else if i < args.len() {
        lemma_first_free_found(pk, assign, arg_karaka(args[i]), 0);
        if let Some(p0) = first_free(pk, assign, arg_karaka(args[i]), 0) {
            let a2 = assign.update(p0, Some(i));
            assert forall|p: int| 0 <= p < a2.len() && #[trigger] a2[p] is Some implies 0 <= a2[p]->0 < i + 1 && a2[p]->0 < args.len()
                && is_tagged(args, a2[p]->0) by {
                if p != p0 {
                    assert(a2[p] == assign[p]);
                }
            }
            assert forall|p: int, q: int| 0 <= p < a2.len() && 0 <= q < a2.len() && p != q && #[trigger] a2[p] is Some && #[trigger] a2[q] is Some
                implies a2[p]->0 != a2[q]->0 by {
                if p != p0 && q != p0 {
                    assert(a2[p] == assign[p] && a2[q] == assign[q]);
                } else if p == p0 {
                    assert(a2[q] == assign[q]);
                } else {
                    assert(a2[p] == assign[p]);
                }
            }
            lemma_bind_tagged_shape(pk, args, i + 1, a2);
        }
    }
}

/// The second pass fills every free parameter with the next untagged
/// argument: the result binds every parameter, each argument at most once,
/// and untagged arguments in their order.
proof fn lemma_bind_positional_shape(args: Seq<ExprM>, assign: Seq<Option<int>>, p: int, pos: Seq<int>)
    requires
        0 <= p <= assign.len(),
        forall|q: int| 0 <= q < p ==> #[trigger] assign[q] is Some,
        forall|q: int| 0 <= q < assign.len() && #[trigger] assign[q] is Some ==> 0 <= assign[q]->0 < args.len(),
        binds_distinct(assign),
        forall|k: int| 0 <= k < pos.len() ==> 0 <= #[trigger] pos[k] < args.len() && !is_tagged(args, pos[k]),
        forall|k: int, l: int| 0 <= k < l < pos.len() ==> #[trigger] pos[k] < #[trigger] pos[l],
        forall|q: int| 0 <= q < assign.len() && #[trigger] assign[q] is Some && !is_tagged(args, assign[q]->0)
            ==> q < p && (forall|k: int| 0 <= k < pos.len() ==> assign[q]->0 < #[trigger] pos[k]),
        forall|q1: int, q2: int| 0 <= q1 < q2 < assign.len() && #[trigger] assign[q1] is Some && #[trigger] assign[q2] is Some
            && !is_tagged(args, assign[q1]->0) && !is_tagged(args, assign[q2]->0) ==> assign[q1]->0 < assign[q2]->0,
    ensures
        bind_positional(assign, p, pos) matches Ok(a) ==> a.len() == assign.len()
            && (forall|q: int| 0 <= q < a.len() ==> #[trigger] a[q] is Some && 0 <= a[q]->0 < args.len())
            && binds_distinct(a)
            && (forall|q1: int, q2: int| 0 <= q1 < q2 < a.len() && !is_tagged(args, #[trigger] a[q1]->0)
                && !is_tagged(args, #[trigger] a[q2]->0) ==> a[q1]->0 < a[q2]->0),
    decreases assign.len() - p,
{
    if p < assign.len() {
        if assign[p] is Some {
            lemma_bind_positional_shape(args, assign, p + 1, pos);
        } else if pos.len() > 0 {
            let v = pos[0];
            let a2 = assign.update(p, Some(v));
            let pos2 = pos.drop_first();
            assert forall|q: int| 0 <= q < p + 1 implies #[trigger] a2[q] is Some by {
                if q != p { assert(a2[q] == assign[q]); }
            }
            assert forall|q: int| 0 <= q < a2.len() && #[trigger] a2[q] is Some implies 0 <= a2[q]->0 < args.len() by {
                if q != p { assert(a2[q] == assign[q]); }
            }
            assert forall|q: int, r: int| 0 <= q < a2.len() && 0 <= r < a2.len() && q != r && #[trigger] a2[q] is Some && #[trigger] a2[r] is Some
                implies a2[q]->0 != a2[r]->0 by {
                if q != p && r != p {
                    assert(a2[q] == assign[q] && a2[r] == assign[r]);
                } else if q == p {
                    assert(a2[r] == assign[r]);
                    if !is_tagged(args, assign[r]->0) {
                        assert(assign[r]->0 < pos[0]);
                    }
                } else {
                    assert(a2[q] == assign[q]);
                    if !is_tagged(args, assign[q]->0) {
                        assert(assign[q]->0 < pos[0]);
                    }
                }
            }
            assert forall|k: int| 0 <= k < pos2.len() implies 0 <= #[trigger] pos2[k] < args.len() && !is_tagged(args, pos2[k]) by {
                assert(pos2[k] == pos[k + 1]);
            }
            assert forall|k: int, l: int| 0 <= k < l < pos2.len() implies #[trigger] pos2[k] < #[trigger] pos2[l] by {
                assert(pos2[k] == pos[k + 1] && pos2[l] == pos[l + 1]);
            }
            assert forall|q: int| 0 <= q < a2.len() && #[trigger] a2[q] is Some && !is_tagged(args, a2[q]->0)
                implies q < p + 1 && (forall|k: int| 0 <= k < pos2.len() ==> a2[q]->0 < #[trigger] pos2[k]) by {
                assert forall|k: int| 0 <= k < pos2.len() implies a2[q]->0 < #[trigger] pos2[k] by {
                    assert(pos2[k] == pos[k + 1]);
                    assert(pos[0] < pos[k + 1]);
                    if q != p {
                        assert(a2[q] == assign[q]);
                        assert(assign[q]->0 < pos[k + 1]);
                    }
                }
            }
            assert forall|q1: int, q2: int| 0 <= q1 < q2 < a2.len() && #[trigger] a2[q1] is Some && #[trigger] a2[q2] is Some
                && !is_tagged(args, a2[q1]->0) && !is_tagged(args, a2[q2]->0) implies a2[q1]->0 < a2[q2]->0 by {
                if q2 == p {
                    assert(a2[q1] == assign[q1]);
                    assert(assign[q1]->0 < pos[0]);
                } else if q1 == p {
                    assert(a2[q2] == assign[q2]);
                    assert(q2 < p);
                } else {
                    assert(a2[q1] == assign[q1] && a2[q2] == assign[q2]);
                }
            }
            lemma_bind_positional_shape(args, a2, p + 1, pos2);
        }
    }
}

/// Binding by kāraka gives a permutation of the arguments: each parameter
/// receives an argument, no argument goes to two parameters, and untagged
/// arguments keep their relative order.
pub proof fn law_karaka_order_is_permutation(params: Seq<ParamM>, args: Seq<ExprM>)
    ensures
        resolve_order(params, args) matches Ok(o) ==> o.len() == params.len() && o.len() == args.len()
            && (forall|p: int| 0 <= p < o.len() ==> 0 <= #[trigger] o[p] < args.len())
            && (forall|p: int, q: int| 0 <= p < o.len() && 0 <= q < o.len() && p != q ==> #[trigger] o[p] != #[trigger] o[q])
            && (forall|p: int, q: int| 0 <= p < q < o.len() && !is_tagged(args, #[trigger] o[p]) && !is_tagged(args, #[trigger] o[q])
                ==> o[p] < o[q]),
{
    let n = params.len();
    if args.len() == n {
        let pk = params.map_values(|p: ParamM| p.2);
        let a0 = Seq::new(n, |i: int| None::<int>);
        lemma_bind_tagged_shape(pk, args, 0, a0);
        if let Ok(a1) = bind_tagged(pk, args, 0, a0) {
            let pos = positional(args, 0);
            lemma_positional_shape(args, 0);
            lemma_bind_positional_shape(args, a1, 0, pos);
            if let Ok(a2) = bind_positional(a1, 0, pos) {
                let o = Seq::new(n, |p: int| a2[p]->0);
                assert forall|p: int| 0 <= p < o.len() implies 0 <= #[trigger] o[p] < args.len() by {
                    assert(a2[p] is Some);
                }
                assert forall|p: int, q: int| 0 <= p < o.len() && 0 <= q < o.len() && p != q implies #[trigger] o[p] != #[trigger] o[q] by {
                    assert(a2[p] is Some && a2[q] is Some);
                }
                assert forall|p: int, q: int| 0 <= p < q < o.len() && !is_tagged(args, #[trigger] o[p]) && !is_tagged(args, #[trigger] o[q])
                    implies o[p] < o[q] by {
                    assert(o[p] == a2[p]->0 && o[q] == a2[q]->0);
                }
            }
        }
    }
}

/// Binding tagged arguments from `i` on, when parameter and argument tags
/// are distinct: each parameter ends up with the argument carrying its tag,
/// or stays free when no argument carries it.
proof fn lemma_bind_tagged_distinct(pk: Seq<Karaka>, args: Seq<ExprM>, i: int, assign: Seq<Option<int>>)
    requires
        0 <= i <= args.len(),
        assign.len() == pk.len(),
        forall|p: int, q: int| 0 <= p < pk.len() && 0 <= q < pk.len() && p != q ==> pk[p] != pk[q],
        forall|j: int| 0 <= j < args.len() ==> arg_karaka(#[trigger] args[j]) != Karaka::Default,
        forall|j: int, l: int| 0 <= j < args.len() && 0 <= l < args.len() && j != l
            ==> arg_karaka(args[j]) != arg_karaka(args[l]),
        forall|j: int| 0 <= j < args.len() ==> exists|p: int| 0 <= p < pk.len() && pk[p] == arg_karaka(#[trigger] args[j]),
        forall|p: int| 0 <= p < pk.len() ==> (#[trigger] assign[p] matches Some(j) ==> 0 <= j < i && arg_karaka(args[j]) == pk[p]),
        forall|p: int| 0 <= p < pk.len() && #[trigger] assign[p] is None
            ==> forall|j: int| 0 <= j < i ==> arg_karaka(#[trigger] args[j]) != pk[p],
    ensures
        bind_tagged(pk, args, i, assign) matches Ok(fin) && fin.len() == pk.len()
            && (forall|p: int| 0 <= p < pk.len() ==> (#[trigger] fin[p] matches Some(j) ==> 0 <= j < args.len() && arg_karaka(args[j]) == pk[p]))
            && (forall|p: int| 0 <= p < pk.len() && #[trigger] fin[p] is None
                ==> forall|j: int| 0 <= j < args.len() ==> arg_karaka(#[trigger] args[j]) != pk[p]),
    decreases args.len() - i,
{
    if i < args.len() {
        let k = arg_karaka(args[i]);
        let p0 = choose|p: int| 0 <= p < pk.len() && pk[p] == arg_karaka(args[i]);
        assert(0 <= p0 < pk.len() && pk[p0] == k);
        if assign[p0] is Some {
            let j = assign[p0]->0;
            assert(arg_karaka(args[j]) == pk[p0]);
        }
        assert(assign[p0] is None);
        lemma_first_free_unique(pk, assign, k, 0, p0);
        let a2 = assign.update(p0, Some(i));
        assert forall|p: int| 0 <= p < pk.len() && #[trigger] a2[p] is None
            implies forall|j: int| 0 <= j < i + 1 ==> arg_karaka(#[trigger] args[j]) != pk[p] by {
            assert(p != p0);
            assert(a2[p] == assign[p]);
        }
        assert forall|p: int| 0 <= p < pk.len() implies (#[trigger] a2[p] matches Some(j) ==> 0 <= j < i + 1 && arg_karaka(args[j]) == pk[p]) by {
            if p != p0 {
                assert(a2[p] == assign[p]);
            }
        }
        lemma_bind_tagged_distinct(pk, args, i + 1, a2);
    }
}

/// Binding by kāraka does not depend on the order of the arguments: where
/// the parameters carry distinct kārakas and each of them is carried by
/// exactly one argument, each parameter receives the argument tagged with
/// its kāraka.
#[verifier::spinoff_prover]
#[verifier::rlimit(40)]
pub proof fn law_karaka_binding_follows_tags(params: Seq<ParamM>, args: Seq<ExprM>)
    requires
        args.len() == params.len(),
        forall|p: int, q: int| 0 <= p < params.len() && 0 <= q < params.len() && p != q ==> params[p].2 != params[q].2,
        forall|j: int| 0 <= j < args.len() ==> arg_karaka(#[trigger] args[j]) != Karaka::Default,
        forall|j: int, l: int| 0 <= j < args.len() && 0 <= l < args.len() && j != l
            ==> arg_karaka(args[j]) != arg_karaka(args[l]),
        forall|j: int| 0 <= j < args.len() ==> has_param_tagged(params, arg_karaka(#[trigger] args[j])),
        forall|p: int| 0 <= p < params.len() ==> has_arg_tagged(args, #[trigger] params[p].2),
    ensures
        resolve_order(params, args) matches Ok(o) && o.len() == params.len()
            && (forall|p: int| 0 <= p < params.len() ==> 0 <= #[trigger] o[p] < args.len() && arg_karaka(args[o[p]]) == params[p].2)
            && (forall|p: int, q: int| 0 <= p < params.len() && 0 <= q < params.len() && p != q ==> #[trigger] o[p] != #[trigger] o[q]),
{
    let n = params.len();
    let pk = params.map_values(|p: ParamM| p.2);
    let a0 = Seq::new(n, |i: int| None::<int>);
    assert forall|j: int| 0 <= j < args.len() implies exists|p: int| 0 <= p < pk.len() && pk[p] == arg_karaka(#[trigger] args[j]) by {
        assert(has_param_tagged(params, arg_karaka(args[j])));
        reveal(has_param_tagged);
        let p = choose|p: int| 0 <= p < params.len() && params[p].2 == arg_karaka(args[j]);
        assert(pk[p] == params[p].2);
    }
    assert forall|p: int, q: int| 0 <= p < pk.len() && 0 <= q < pk.len() && p != q implies pk[p] != pk[q] by {
        assert(pk[p] == params[p].2 && pk[q] == params[q].2);
    }
    lemma_bind_tagged_distinct(pk, args, 0, a0);
    let fin = bind_tagged(pk, args, 0, a0)->Ok_0;
    assert(bind_tagged(pk, args, 0, a0) == Ok::<Seq<Option<int>>, (Karaka, int)>(fin));
    assert forall|p: int| 0 <= p < n implies #[trigger] fin[p] is Some by {
        if fin[p] is None {
            assert(has_arg_tagged(args, params[p].2));
            reveal(has_arg_tagged);
            let j = choose|j: int| 0 <= j < args.len() && arg_karaka(#[trigger] args[j]) == params[p].2;
            assert(pk[p] == params[p].2);
        }
    }
    lemma_bind_positional_some(fin, 0, positional(args, 0));
    let o = Seq::new(n, |p: int| fin[p]->0);
    lemma_resolve_order_bound(params, args, fin);
    assert forall|p: int| 0 <= p < params.len() implies 0 <= #[trigger] o[p] < args.len() && arg_karaka(args[o[p]]) == params[p].2 by {
        assert(fin[p] is Some);
        assert(pk[p] == params[p].2);
    }
    assert forall|p: int, q: int| 0 <= p < params.len() && 0 <= q < params.len() && p != q implies #[trigger] o[p] != #[trigger] o[q] by {
        assert(arg_karaka(args[o[p]]) == params[p].2);
        assert(arg_karaka(args[o[q]]) == params[q].2);
    }
}

/// The order `resolve_order` gives when both binding passes succeed with
/// the same table.
proof fn lemma_resolve_order_bound(params: Seq<ParamM>, args: Seq<ExprM>, fin: Seq<Option<int>>)
    requires
        args.len() == params.len(),
        bind_tagged(params.map_values(|p: ParamM| p.2), args, 0, Seq::new(params.len(), |i: int| None::<int>))
            == Ok::<Seq<Option<int>>, (Karaka, int)>(fin),
        bind_positional(fin, 0, positional(args, 0)) == Ok::<Seq<Option<int>>, int>(fin),
    ensures
        resolve_order(params, args) == Ok::<Seq<int>, Seq<char>>(Seq::new(params.len(), |p: int| fin[p]->0)),
{
}

/// Binding positionally leaves a fully bound table as it is.
proof fn lemma_bind_positional_some(assign: Seq<Option<int>>, p: int, pos: Seq<int>)
    requires
        0 <= p <= assign.len(),
        forall|j: int| 0 <= j < assign.len() ==> #[trigger] assign[j] is Some,
    ensures
        bind_positional(assign, p, pos) == Ok::<Seq<Option<int>>, int>(assign),
    decreases assign.len() - p,
{
    if p < assign.len() {
        lemma_bind_positional_some(assign, p + 1, pos);
    }
}

pub proof fn lemma_positional_all(args: Seq<ExprM>, i: int)
    requires
        0 <= i <= args.len(),
        forall|j: int| 0 <= j < args.len() ==> arg_karaka(#[trigger] args[j]) == Karaka::Default,
    ensures
        positional(args, i) == Seq::new((args.len() - i) as nat, |k: int| k + i),
    decreases args.len() - i,
{
    if i < args.len() {
        lemma_positional_all(args, i + 1);
        assert(seq![i] + Seq::new((args.len() - i - 1) as nat, |k: int| k + i + 1) =~= Seq::new((args.len() - i) as nat, |k: int| k + i));
    } else {
        assert(Seq::new(0nat, |k: int| k + i) =~= Seq::<int>::empty());
    }
}

pub proof fn lemma_bind_positional_all(assign: Seq<Option<int>>, p: int, pos: Seq<int>)
    requires
        0 <= p <= assign.len(),
        forall|j: int| p <= j < assign.len() ==> #[trigger] assign[j] is None,
        forall|j: int| 0 <= j < p ==> #[trigger] assign[j] == Some(j),
        pos == Seq::new((assign.len() - p) as nat, |k: int| k + p),
    ensures
        bind_positional(assign, p, pos) == Ok::<Seq<Option<int>>, int>(Seq::new(assign.len(), |k: int| Some(k))),
    decreases assign.len() - p,
{
    if p < assign.len() {
        let a = assign.update(p, Some(pos[0]));
        assert(pos.drop_first() =~= Seq::new((a.len() - (p + 1)) as nat, |k: int| k + (p + 1)));
        lemma_bind_positional_all(a, p + 1, pos.drop_first());
    } else {
        assert(assign =~= Seq::new(assign.len(), |k: int| Some(k)));
    }
}

/// A resolved type as `{:?}` writes it.
pub open spec fn resolved_debug(t: ResolvedM) -> Seq<char> {
    match t {
        ResolvedM::Known(g) => "Known(GanaType("@ + decimal(g.0 as nat) + "))"@,
        ResolvedM::UserDefined(s) => "UserDefined("@ + debug_of_str(s) + ")"@,
        ResolvedM::Unknown => "Unknown"@,
    }
}

fn resolved_debug_text(t: &ResolvedType) -> (r: String)
    ensures
        r@ == resolved_debug(t@),
{
    match t {
        ResolvedType::Known(g) => {
            let mut r = owned("Known(GanaType(");
            push_str(&mut r, usize_text(g.0 as usize).as_str());
            push_str(&mut r, "))");
            r
        },
        ResolvedType::UserDefined(s) => {
            let mut r = owned("UserDefined(");
            push_str(&mut r, str_debug(s.as_str()).as_str());
            push_str(&mut r, ")");
            r
        },
        ResolvedType::Unknown => owned("Unknown"),
    }
}

/// The Gaṇa of a type name; unknown names are void.
pub open spec fn gana_of_name(s: Seq<char>) -> GanaType {
    if s == "अङ्क"@ {
        GanaType(15u8)
    } else if s == "सत्यता"@ {
        GanaType(10u8)
    } else if s == "शब्द"@ {
        GanaType(9u8)
    } else if s == "दशमलव"@ {
        GanaType(12u8)
    } else {
        GanaType(8u8)
    }
}

fn gana_from_str(s: &str) -> (r: GanaType)
    ensures
        r == gana_of_name(s@),
{
    if str_eq(s, "अङ्क") {
        GanaType::integer()
    } else if str_eq(s, "सत्यता") {
        GanaType::bool()
    } else if str_eq(s, "शब्द") {
        GanaType::str()
    } else if str_eq(s, "दशमलव") {
        GanaType::float()
    } else {
        GanaType::void()
    }
}

/// The type bits of a known type.
pub open spec fn type_bits(t: ResolvedM) -> Option<u8> {
    match t {
        ResolvedM::Known(g) => Some(g.spec_typ()),
        _ => None,
    }
}

fn gana_type_bits(t: &ResolvedType) -> (r: Option<u8>)
    ensures
        r == type_bits(t@),
{
    match t {
        ResolvedType::Known(g) => Some(g.typ()),
        _ => None,
    }
}

/// The symbol a variable refers to: by base name and kāraka, else by its
/// full name, else by its base name.
pub open spec fn lookup_var(scopes: Seq<ScopeM>, name: Seq<char>) -> Option<SymbolM> {
    let (base, k) = karaka_of(name);
    match lookup_base_in(scopes, base, k) {
        Some(s) => Some(s),
        None => match lookup_in(scopes, name) {
            Some(s) => Some(s),
            None => lookup_in(scopes, base),
        },
    }
}

pub open spec fn is_arith(op: Seq<char>) -> bool {
    op == "+"@ || op == "-"@ || op == "*"@ || op == "/"@ || op == "%"@
}

pub open spec fn is_compare(op: Seq<char>) -> bool {
    op == "=="@ || op == "!="@ || op == "<"@ || op == ">"@ || op == "<="@ || op == ">="@
}

/// The type of an expression under the given scopes.
pub open spec fn expr_type_spec(scopes: Seq<ScopeM>, e: ExprM) -> ResolvedM
    decreases e,
{
    match e {
        ExprM::Literal(v) => match v {
            ValueM::Int(_) => ResolvedM::Known(GanaType(15u8)),
            ValueM::Float(_) => ResolvedM::Known(GanaType(12u8)),
            ValueM::Bool(_) => ResolvedM::Known(GanaType(10u8)),
            ValueM::Str(_) => ResolvedM::Known(GanaType(9u8)),
            _ => ResolvedM::Unknown,
        },
        ExprM::IntLiteral(_) => ResolvedM::Known(GanaType(15u8)),
        ExprM::Variable(name) => match lookup_var(scopes, name) {
            Some(s) => s.resolved_type,
            None => ResolvedM::Unknown,
        },
        ExprM::Binary { left, op, right } => {
            let lt = expr_type_spec(scopes, *left);
            let rt = expr_type_spec(scopes, *right);
            if is_arith(op) {
                if type_bits(lt) == Some(7u8) && type_bits(rt) == Some(7u8) {
                    ResolvedM::Known(GanaType(15u8))
                } else if type_bits(lt) == Some(4u8) || type_bits(rt) == Some(4u8) {
                    ResolvedM::Known(GanaType(12u8))
                } else {
                    ResolvedM::Unknown
                }
            } else if is_compare(op) {
                ResolvedM::Known(GanaType(10u8))
            } else {
                ResolvedM::Unknown
            }
        },
        ExprM::Call { name, .. } => match lookup_in(scopes, name) {
            Some(s) => s.resolved_type,
            None => ResolvedM::Unknown,
        },
        _ => ResolvedM::Unknown,
    }
}

fn is_arith_op(op: &str) -> (r: bool)
    ensures
        r == is_arith(op@),
{
    str_eq(op, "+") || str_eq(op, "-") || str_eq(op, "*") || str_eq(op, "/") || str_eq(op, "%")
}

fn is_compare_op(op: &str) -> (r: bool)
    ensures
        r == is_compare(op@),
{
    str_eq(op, "==") || str_eq(op, "!=") || str_eq(op, "<") || str_eq(op, ">") || str_eq(op, "<=") || str_eq(op, ">=")
}

fn lookup_var_type(table: &SymbolTable, name: &String) -> (r: ResolvedType)
    ensures
        r@ == (match lookup_var(table@.scopes, name@) {
            Some(s) => s.resolved_type,
            None => ResolvedM::Unknown,
        }),
{
    let (base, k) = extract_karaka(name.as_str());
    match table.lookup_base(base.as_str(), k) {
        Some(s) => clone_resolved(&s.resolved_type),
        None => match table.lookup(name.as_str()) {
            Some(s) => clone_resolved(&s.resolved_type),
            None => match table.lookup(base.as_str()) {
                Some(s) => clone_resolved(&s.resolved_type),
                None => ResolvedType::Unknown,
            },
        },
    }
}

/// The type of an expression.
fn expr_type(expr: &Expression, table: &SymbolTable) -> (r: ResolvedType)
    ensures
        r@ == expr_type_spec(table@.scopes, expr@),
    decreases expr,
{
    match expr {
        Expression::Literal(v) => match v {
            Value::Int(_) => ResolvedType::Known(GanaType::integer()),
            Value::Float(_) => ResolvedType::Known(GanaType::float()),
            Value::Bool(_) => ResolvedType::Known(GanaType::bool()),
            Value::Str(_) => ResolvedType::Known(GanaType::str()),
            _ => ResolvedType::Unknown,
        },
        Expression::IntLiteral(_) => ResolvedType::Known(GanaType::integer()),
        Expression::Variable(name) => lookup_var_type(table, name),
        Expression::Binary { left, op, right } => {
            let lt = expr_type(&**left, table);
            let rt = expr_type(&**right, table);
            if is_arith_op(op.as_str()) {
                let lb = gana_type_bits(&lt);
                let rb = gana_type_bits(&rt);
                if lb == Some(7u8) && rb == Some(7u8) {
                    ResolvedType::Known(GanaType::integer())
                } else if lb == Some(4u8) || rb == Some(4u8) {
                    ResolvedType::Known(GanaType::float())
                } else {
                    ResolvedType::Unknown
                }
            } else if is_compare_op(op.as_str()) {
                ResolvedType::Known(GanaType::bool())
            } else {
                ResolvedType::Unknown
            }
        },
        Expression::Call { name, .. } => match table.lookup(name.as_str()) {
            Some(s) => clone_resolved(&s.resolved_type),
            None => ResolvedType::Unknown,
        },
        _ => ResolvedType::Unknown,
    }
}

/// Numeric types: int or float.
pub open spec fn numeric(t: ResolvedM) -> bool {
    type_bits(t) == Some(7u8) || type_bits(t) == Some(4u8)
}

/// Checking a variable read: unknown names are reported, reads of declared
/// but unassigned variables are reported, and a known variable moves to the
/// in-use state.
pub open spec fn check_var_spec(t: TableM, name: Seq<char>) -> TableM {
    let (base, k) = karaka_of(name);
    let exists = lookup_in(t.scopes, name) is Some || lookup_in(t.scopes, base) is Some
        || lookup_base_in(t.scopes, base, k) is Some;
    let t1 = if !exists { t_err(t, "undefined variable '"@ + name + "'"@) } else { t };
    let declared = match lookup_in(t1.scopes, name) {
        Some(s) => match s.resolved_type {
            ResolvedM::Known(g) => g.spec_state() == 0u8,
            _ => false,
        },
        None => false,
    };
    let t2 = if declared { t_err(t1, "variable '"@ + name + "' is declared but not assigned"@) } else { t1 };
    if lookup_in(t2.scopes, name) is Some { t_update(t2, name, 2u8) } else { t2 }
}

/// The report on the operands of a binary operator, if any.
pub open spec fn binary_report(op: Seq<char>, lt: ResolvedM, rt: ResolvedM) -> Option<Seq<char>> {
    if is_arith(op) {
        if !(lt is Unknown) && !(rt is Unknown) && (!numeric(lt) || !numeric(rt)) {
            Some("operator '"@ + op + "' requires numeric operands, got '"@ + resolved_debug(lt) + "' and '"@
                + resolved_debug(rt) + "'"@)
        } else {
            None
        }
    } else if is_compare(op) {
        if type_bits(lt) != type_bits(rt) && !(lt is Unknown) && !(rt is Unknown) {
            Some("comparison between incompatible types '"@ + resolved_debug(lt) + "' and '"@ + resolved_debug(rt) + "'"@)
        } else {
            None
        }
    } else {
        None
    }
}

/// Comparing operands of two known, different types is an error: after
/// the operands are checked, the comparison adds exactly one error, which
/// names both types; comparing operands of one known type adds none.
pub proof fn law_comparison_types_checked(t: TableM, left: ExprM, op: Seq<char>, right: ExprM)
    requires
        is_compare(op),
    ensures
        ({
            let (t1, l) = check_expr_spec(t, left);
            let (t2, r) = check_expr_spec(t1, right);
            let lt = expr_type_spec(t2.scopes, l);
            let rt = expr_type_spec(t2.scopes, r);
            let after = check_expr_spec(t, ExprM::Binary { left: Box::new(left), op: op, right: Box::new(right) }).0;
            &&& (lt is Known && rt is Known && type_bits(lt) != type_bits(rt)) ==> after.errors == t2.errors.push(
                "comparison between incompatible types '"@ + resolved_debug(lt) + "' and '"@ + resolved_debug(rt) + "'"@)
            &&& (lt is Known && rt is Known && type_bits(lt) == type_bits(rt)) ==> after.errors == t2.errors
            &&& after.scopes == t2.scopes
        }),
{
    assert(!is_arith(op)) by {
        reveal_strlit("==");
        reveal_strlit("!=");
        reveal_strlit("<");
        reveal_strlit(">");
        reveal_strlit("<=");
        reveal_strlit(">=");
        reveal_strlit("+");
        reveal_strlit("-");
        reveal_strlit("*");
        reveal_strlit("/");
        reveal_strlit("%");
        if is_arith(op) {
            assert(op.len() == 1);
            assert(op[0] == '+' || op[0] == '-' || op[0] == '*' || op[0] == '/' || op[0] == '%');
            assert(op == "<"@ || op == ">"@);
            assert(op[0] == '<' || op[0] == '>');
        }
    }
}

/// Comparing an integer with a string is always an error, whatever the
/// numbers, the texts and the comparison: the table gains exactly that
/// error and nothing else.
pub proof fn law_int_string_comparison_rejected(t: TableM, n: i64, s: Seq<char>, op: Seq<char>)
    requires
        is_compare(op),
    ensures
        check_expr_spec(t, ExprM::Binary {
            left: Box::new(ExprM::IntLiteral(n)),
            op: op,
            right: Box::new(ExprM::Literal(ValueM::Str(s))),
        }).0 == t_err(t, "comparison between incompatible types '"@ + resolved_debug(ResolvedM::Known(GanaType(15u8)))
            + "' and '"@ + resolved_debug(ResolvedM::Known(GanaType(9u8))) + "'"@),
{
    law_comparison_types_checked(t, ExprM::IntLiteral(n), op, ExprM::Literal(ValueM::Str(s)));
    assert(GanaType(15u8).spec_typ() != GanaType(9u8).spec_typ()) by {
        assert((15u8 & 7u8) == 7u8) by (bit_vector);
        assert((9u8 & 7u8) == 1u8) by (bit_vector);
    }
}

pub open spec fn report(t: TableM, m: Option<Seq<char>>) -> TableM {
    match m {
        Some(x) => t_err(t, x),
        None => t,
    }
}

pub open spec fn ident_order(n: nat) -> Seq<int> {
    Seq::new(n, |i: int| i)
}

/// Checking an expression: the table after the checks, and the expression
/// with call arguments put in parameter order.
pub open spec fn check_expr_spec(t: TableM, e: ExprM) -> (TableM, ExprM)
    decreases e, 1nat, 0nat,
{
    match e {
        ExprM::Variable(name) => (check_var_spec(t, name), e),
        ExprM::Binary { left, op, right } => {
            let (t1, l) = check_expr_spec(t, *left);
            let (t2, r) = check_expr_spec(t1, *right);
            let lt = expr_type_spec(t2.scopes, l);
            let rt = expr_type_spec(t2.scopes, r);
            (report(t2, binary_report(op, lt, rt)), ExprM::Binary { left: Box::new(l), op: op, right: Box::new(r) })
        },
        ExprM::Call { name, args } => match lookup_in(t.scopes, name) {
            None => {
                let (t2, cs) = check_args_spec(t_err(t, "undefined function '"@ + name + "'"@), args, ident_order(args.len()));
                (t2, ExprM::Call { name: name, args: cs })
            },
            Some(sym) => {
                let t1 = if args.len() != sym.param_count {
                    t_err(t, "function '"@ + name + "' expects "@ + decimal(sym.param_count as nat) + " arguments, got "@ + decimal(args.len()))
                } else {
                    t
                };
                let (t2, order) = if sym.param_types.len() == 0 {
                    (t1, ident_order(args.len()))
                } else {
                    match resolve_order(sym.param_types, args) {
                        Ok(o) => (t1, o),
                        Err(m) => (t_err(t1, "in call to '"@ + name + "': "@ + m), ident_order(args.len())),
                    }
                };
                let (t3, cs) = check_args_spec(t2, args, order);
                (t3, ExprM::Call { name: name, args: cs })
            },
        },
        ExprM::MethodCall { instance, method_name, args } => {
            let (t1, i) = check_expr_spec(t, *instance);
            let (t2, cs) = check_args_spec(t1, args, ident_order(args.len()));
            (t2, ExprM::MethodCall { instance: Box::new(i), method_name: method_name, args: cs })
        },
        ExprM::MatchExpr { eval_target, arms } => {
            let (t1, tg) = check_expr_spec(t, *eval_target);
            let (t2, ca) = check_arms_spec(t1, arms);
            (t2, ExprM::MatchExpr { eval_target: Box::new(tg), arms: ca })
        },
        _ => (t, e),
    }
}

/// Checking the arguments picked by `order`, in that order.
pub open spec fn check_args_spec(t: TableM, args: Seq<ExprM>, order: Seq<int>) -> (TableM, Seq<ExprM>)
    decreases args, 0nat, order.len(),
{
    if order.len() == 0 {
        (t, Seq::empty())
    } else if 0 <= order[0] < args.len() {
        let (t1, c) = check_expr_spec(t, args[order[0]]);
        let (t2, rest) = check_args_spec(t1, args, order.drop_first());
        (t2, seq![c] + rest)
    } else {
        check_args_spec(t, args, order.drop_first())
    }
}

/// Checking the bodies of match arms in order.
pub open spec fn check_arms_spec(t: TableM, arms: Seq<(Seq<char>, Seq<Seq<char>>, ExprM)>) -> (TableM, Seq<(Seq<char>, Seq<Seq<char>>, ExprM)>)
    decreases arms, 0nat, arms.len(),
{
    if arms.len() == 0 {
        (t, Seq::empty())
    } else {
        let (t1, c) = check_expr_spec(t, arms[0].2);
        let (t2, rest) = check_arms_spec(t1, arms.drop_first());
        (t2, seq![(arms[0].0, arms[0].1, c)] + rest)
    }
}

/// The arguments picked by `order` checked so far, and the rest to check.
pub open spec fn args_progress(t: TableM, args: Seq<ExprM>, order: Seq<int>, j: int, done: Seq<ExprM>) -> (TableM, Seq<ExprM>) {
    let r = check_args_spec(t, args, order.subrange(j, order.len() as int));
    (r.0, done + r.1)
}

pub open spec fn arms_progress(t: TableM, arms: Seq<(Seq<char>, Seq<Seq<char>>, ExprM)>, j: int, done: Seq<(Seq<char>, Seq<Seq<char>>, ExprM)>) -> (TableM, Seq<(Seq<char>, Seq<Seq<char>>, ExprM)>) {
    let r = check_arms_spec(t, arms.subrange(j, arms.len() as int));
    (r.0, done + r.1)
}

/// The Kāraka-aware semantic analyzer and type checker.
pub struct TypeChecker {
    pub table: SymbolTable,
}

impl TypeChecker {
    pub fn new() -> (r: Self)
        ensures
            r.table@ == (TableM { scopes: seq![builtin_scope()], depth: 0, errors: Seq::empty() }),
    {
        TypeChecker { table: SymbolTable::new() }
    }

    fn check_var(&mut self, name: &String)
        ensures
            final(self).table@ == check_var_spec(old(self).table@, name@),
    {
        let (base, k) = extract_karaka(name.as_str());
        let exists = self.table.lookup(name.as_str()).is_some() || self.table.lookup(base.as_str()).is_some()
            || self.table.lookup_base(base.as_str(), k).is_some();
        if !exists {
            let mut m = owned("undefined variable '");
            push_str(&mut m, name.as_str());
            push_str(&mut m, "'");
            self.table.push_error(m);
        }
        let declared = match self.table.lookup(name.as_str()) {
            Some(s) => match &s.resolved_type {
                ResolvedType::Known(g) => g.state() == GANA_DECLARED,
                _ => false,
            },
            None => false,
        };
        if declared {
            let mut m = owned("variable '");
            push_str(&mut m, name.as_str());
            push_str(&mut m, "' is declared but not assigned");
            self.table.push_error(m);
        }
        if self.table.lookup(name.as_str()).is_some() {
            self.table.update_state(name.as_str(), GANA_IN_USE);
        }
    }

    fn binary_checks(&mut self, op: &String, lt: &ResolvedType, rt: &ResolvedType)
        ensures
            final(self).table@ == report(old(self).table@, binary_report(op@, lt@, rt@)),
    {
        let lb = gana_type_bits(lt);
        let rb = gana_type_bits(rt);
        let l_unknown = matches!(lt, ResolvedType::Unknown);
        let r_unknown = matches!(rt, ResolvedType::Unknown);
        if is_arith_op(op.as_str()) {
            let l_num = lb == Some(7u8) || lb == Some(4u8);
            let r_num = rb == Some(7u8) || rb == Some(4u8);
            if !l_unknown && !r_unknown && (!l_num || !r_num) {
                let mut m = owned("operator '");
                push_str(&mut m, op.as_str());
                push_str(&mut m, "' requires numeric operands, got '");
                push_str(&mut m, resolved_debug_text(lt).as_str());
                push_str(&mut m, "' and '");
                push_str(&mut m, resolved_debug_text(rt).as_str());
                push_str(&mut m, "'");
                self.table.push_error(m);
            }
        } else if is_compare_op(op.as_str()) {
            if lb != rb && !l_unknown && !r_unknown {
                let mut m = owned("comparison between incompatible types '");
                push_str(&mut m, resolved_debug_text(lt).as_str());
                push_str(&mut m, "' and '");
                push_str(&mut m, resolved_debug_text(rt).as_str());
                push_str(&mut m, "'");
                self.table.push_error(m);
            }
        }
    }

    /// Checks the arguments picked by `order`, in that order.
    fn check_args(&mut self, args: &Vec<Expression>, order: &Vec<usize>) -> (r: Vec<Expression>)
        requires
            forall|j: int| 0 <= j < order@.len() ==> #[trigger] order@[j] < args@.len(),
        ensures
            (final(self).table@, exprs_m(r@)) == check_args_spec(old(self).table@, exprs_m(args@), idx_m(order@)),
        decreases args, 1nat,
    {
        let ghost am = exprs_m(args@);
        let ghost om = idx_m(order@);
        let ghost t0 = self.table@;
        proof {
            lemma_exprs_m(args@);
            assert(om.subrange(0, om.len() as int) =~= om);
            assert(exprs_m(Seq::<Expression>::empty()) + check_args_spec(t0, am, om).1 =~= check_args_spec(t0, am, om).1);
        }
        let mut out: Vec<Expression> = Vec::new();
        let mut j: usize = 0;
        while j < order.len()
            invariant
                j <= order@.len(),
                am == exprs_m(args@),
                am.len() == args@.len(),
                om == idx_m(order@),
                forall|q: int| 0 <= q < args@.len() ==> #[trigger] am[q] == expr_m(args@[q]),
                forall|q: int| 0 <= q < order@.len() ==> #[trigger] order@[q] < args@.len(),
                check_args_spec(t0, am, om) == args_progress(self.table@, am, om, j as int, exprs_m(out@)),
            decreases order@.len() - j,
        {
            let k = order[j];
            let ghost rest = om.subrange(j as int, om.len() as int);
            assert(rest[0] == k as int);
            assert(rest.drop_first() =~= om.subrange(j + 1, om.len() as int));
            assert(decreases_to!(*args => args@));
            assert(decreases_to!(args@ => args@[k as int]));
            let ghost before = exprs_m(out@);
            let c = self.check_expr_ref(&args[k]);
            proof {
                lemma_exprs_m_push(out@, c);
            }
            out.push(c);
            proof {
                let r1 = check_args_spec(self.table@, am, rest.drop_first());
                assert(before + (seq![expr_m(c)] + r1.1) =~= exprs_m(out@) + r1.1);
            }
            j = j + 1;
        }
        proof {
            assert(om.subrange(j as int, om.len() as int) =~= Seq::<int>::empty());
            assert(exprs_m(out@) + Seq::<ExprM>::empty() =~= exprs_m(out@));
        }
        out
    }

    /// Checks an expression and puts call arguments in parameter order.
    fn check_expr(&mut self, e: Expression) -> (r: Expression)
        ensures
            (final(self).table@, r@) == check_expr_spec(old(self).table@, e@),
    {
        self.check_expr_ref(&e)
    }

    fn check_expr_ref(&mut self, e: &Expression) -> (r: Expression)
        ensures
            (final(self).table@, r@) == check_expr_spec(old(self).table@, e@),
        decreases e, 2nat,
    {
        match e {
            Expression::Variable(name) => {
                self.check_var(name);
                Expression::Variable(name.clone())
            },
            Expression::Binary { left, op, right } => {
                let l = self.check_expr_ref(&**left);
                let r = self.check_expr_ref(&**right);
                let lt = expr_type(&l, &self.table);
                let rt = expr_type(&r, &self.table);
                self.binary_checks(op, &lt, &rt);
                Expression::Binary { left: Box::new(l), op: op.clone(), right: Box::new(r) }
            },
            Expression::Call { name, args } => {
                proof {
                    lemma_exprs_m(args@);
                }
                let found = match self.table.lookup(name.as_str()) {
                    Some(s) => Some((s.param_count, clone_params(&s.param_types))),
                    None => None,
                };
                match found {
                    None => {
                        let mut m = owned("undefined function '");
                        push_str(&mut m, name.as_str());
                        push_str(&mut m, "'");
                        self.table.push_error(m);
                        let order = ident_positions(args.len());
                        let cs = self.check_args(args, &order);
                        Expression::Call { name: name.clone(), args: cs }
                    },
                    Some((expected, params)) => {
                        if args.len() != expected {
                            let mut m = owned("function '");
                            push_str(&mut m, name.as_str());
                            push_str(&mut m, "' expects ");
                            push_str(&mut m, usize_text(expected).as_str());
                            push_str(&mut m, " arguments, got ");
                            push_str(&mut m, usize_text(args.len()).as_str());
                            self.table.push_error(m);
                        }
                        let order = if params.len() == 0 {
                            ident_positions(args.len())
                        } else {
                            match resolve_positions(params.as_slice(), args.as_slice()) {
                                Ok(o) => o,
                                Err(msg) => {
                                    let mut m = owned("in call to '");
                                    push_str(&mut m, name.as_str());
                                    push_str(&mut m, "': ");
                                    push_str(&mut m, msg.as_str());
                                    self.table.push_error(m);
                                    ident_positions(args.len())
                                },
                            }
                        };
                        let cs = self.check_args(args, &order);
                        Expression::Call { name: name.clone(), args: cs }
                    },
                }
            },
            Expression::MethodCall { instance, method_name, args } => {
                proof {
                    lemma_exprs_m(args@);
                }
                let i = self.check_expr_ref(&**instance);
                let order = ident_positions(args.len());
                let cs = self.check_args(args, &order);
                Expression::MethodCall { instance: Box::new(i), method_name: method_name.clone(), args: cs }
            },
            Expression::MatchExpr { eval_target, arms } => {
                let tg = self.check_expr_ref(&**eval_target);
                let ca = self.check_arms(arms);
                Expression::MatchExpr { eval_target: Box::new(tg), arms: ca }
            },
            _ => clone_expr(e),
        }
    }

    fn check_arms(&mut self, arms: &Vec<(String, Vec<String>, Expression)>) -> (r: Vec<(String, Vec<String>, Expression)>)
        ensures
            (final(self).table@, arms_m(r@)) == check_arms_spec(old(self).table@, arms_m(arms@)),
        decreases arms, 1nat,
    {
        let ghost am = arms_m(arms@);
        let ghost t0 = self.table@;
        proof {
            lemma_arms_m(arms@);
            assert(am.subrange(0, am.len() as int) =~= am);
            assert(arms_m(Seq::<(String, Vec<String>, Expression)>::empty()) + check_arms_spec(t0, am).1 =~= check_arms_spec(t0, am).1);
        }
        let mut out: Vec<(String, Vec<String>, Expression)> = Vec::new();
        let mut j: usize = 0;
        while j < arms.len()
            invariant
                j <= arms@.len(),
                am == arms_m(arms@),
                am.len() == arms@.len(),
                forall|q: int| 0 <= q < arms@.len() ==> #[trigger] am[q] == (arms@[q].0@, strs_m(arms@[q].1@), expr_m(arms@[q].2)),
                check_arms_spec(t0, am) == arms_progress(self.table@, am, j as int, arms_m(out@)),
            decreases arms@.len() - j,
        {
            let ghost rest = am.subrange(j as int, am.len() as int);
            assert(rest[0] == am[j as int]);
            assert(rest.drop_first() =~= am.subrange(j + 1, am.len() as int));
            assert(decreases_to!(*arms => arms@));
            assert(decreases_to!(arms@ => arms@[j as int]));
            assert(decreases_to!(arms@[j as int] => arms@[j as int].2));
            let ghost before = arms_m(out@);
            let ghost prev = out@;
            let c = self.check_expr_ref(&arms[j].2);
            let entry = (arms[j].0.clone(), clone_strings(&arms[j].1), c);
            let ghost em_entry = (entry.0@, strs_m(entry.1@), expr_m(entry.2));
            out.push(entry);
            proof {
                assert(out@.drop_last() =~= prev);
                assert(arms_m(out@) == before.push(em_entry));
                let r1 = check_arms_spec(self.table@, rest.drop_first());
                assert(before + (seq![(rest[0].0, rest[0].1, expr_m(c))] + r1.1) =~= arms_m(out@) + r1.1);
            }
            j = j + 1;
        }
        proof {
            assert(am.subrange(j as int, am.len() as int) =~= Seq::<(Seq<char>, Seq<Seq<char>>, ExprM)>::empty());
            assert(arms_m(out@) + Seq::<(Seq<char>, Seq<Seq<char>>, ExprM)>::empty() =~= arms_m(out@));
        }
        out
    }
}

/// The positions `0 .. n` in order.
fn ident_positions(n: usize) -> (r: Vec<usize>)
    ensures
        idx_m(r@) == ident_order(n as nat),
        forall|j: int| 0 <= j < r@.len() ==> #[trigger] r@[j] < n,
{
    let mut r: Vec<usize> = Vec::new();
    let mut i: usize = 0;
    while i < n
        invariant
            i <= n,
            r@.len() == i,
            forall|j: int| 0 <= j < i ==> #[trigger] r@[j] == j,
        decreases n - i,
    {
        r.push(i);
        i = i + 1;
    }
    assert(idx_m(r@) =~= ident_order(n as nat));
    r
}

/// The symbol of a declared variable (or enum, struct or variant).
pub open spec fn plain_symbol(name: Seq<char>, t: ResolvedM, depth: usize, access: AccessModifier) -> SymbolM {
    SymbolM {
        name: name,
        base_name: name,
        karaka: Karaka::Default,
        resolved_type: t,
        depth: depth,
        is_function: false,
        param_count: 0,
        param_types: Seq::empty(),
        access_level: access,
    }
}

/// The parameter record of a declared parameter.
pub open spec fn param_info(p: (Seq<char>, Seq<char>)) -> ParamM {
    (p.0, karaka_of(p.0).0, karaka_of(p.0).1, ResolvedM::Known(gana_of_name(p.1)))
}

/// The symbol of a parameter inside its function's scope.
pub open spec fn param_symbol(p: (Seq<char>, Seq<char>), depth: usize) -> SymbolM {
    SymbolM {
        name: p.0,
        base_name: karaka_of(p.0).0,
        karaka: karaka_of(p.0).1,
        resolved_type: ResolvedM::Known(gana_of_name(p.1)),
        depth: depth,
        is_function: false,
        param_count: 0,
        param_types: Seq::empty(),
        access_level: AccessModifier::Private,
    }
}

pub open spec fn insert_params(t: TableM, params: Seq<(Seq<char>, Seq<char>)>) -> TableM
    decreases params.len(),
{
    if params.len() == 0 {
        t
    } else {
        insert_params(t_insert(t, params[0].0, param_symbol(params[0], t.depth)), params.drop_first())
    }
}

pub open spec fn insert_variants(t: TableM, enum_name: Seq<char>, variants: Seq<(Seq<char>, Option<Seq<Seq<char>>>)>) -> TableM
    decreases variants.len(),
{
    if variants.len() == 0 {
        t
    } else {
        let vn = variants[0].0;
        insert_variants(
            t_insert(t, vn, plain_symbol(vn, ResolvedM::UserDefined(enum_name + "::"@ + vn), t.depth, AccessModifier::Private)),
            enum_name,
            variants.drop_first(),
        )
    }
}

/// The report on a variable whose declared type differs from its value's.
pub open spec fn var_decl_report(name: Seq<char>, declared: Seq<char>, vt: ResolvedM) -> Option<Seq<char>> {
    if declared.len() > 0 && !(vt is Unknown) && type_bits(vt) is Some && type_bits(vt) != Some(gana_of_name(declared).spec_typ()) {
        Some("type mismatch: variable '"@ + name + "' declared as '"@ + declared + "' but value has type '"@ + resolved_debug(vt)
            + "'"@)
    } else {
        None
    }
}

/// The report on a condition that is not boolean.
pub open spec fn condition_report(ct: ResolvedM) -> Option<Seq<char>> {
    if !(ct is Unknown) && type_bits(ct) != Some(2u8) {
        Some("if condition must be boolean (सत्यता), got '"@ + resolved_debug(ct) + "'"@)
    } else {
        None
    }
}

/// How deeply statements nest scopes.
pub open spec fn node_height(n: NodeM) -> nat
    decreases n, 1nat,
{
    match n {
        NodeM::FuncDecl { body, .. } => 1 + nodes_height(body),
        NodeM::IfStmt { then_branch, else_branch, .. } => {
            let a = nodes_height(then_branch);
            let b = match else_branch {
                Some(eb) => nodes_height(eb),
                None => 0,
            };
            1 + if a >= b { a } else { b }
        },
        NodeM::WhileStmt { body, .. } => 1 + nodes_height(body),
        NodeM::Block(b) => 1 + nodes_height(b),
        _ => 0,
    }
}

pub open spec fn nodes_height(ns: Seq<NodeM>) -> nat
    decreases ns, 0nat,
{
    if ns.len() == 0 {
        0
    } else {
        let a = node_height(ns[0]);
        let b = nodes_height(ns.drop_first());
        if a >= b { a } else { b }
    }
}

/// Checking a statement: the table after it, and the statement with its
/// expressions checked.
pub open spec fn check_node_spec(t: TableM, n: NodeM) -> (TableM, NodeM)
    decreases n, 1nat,
{
    match n {
        NodeM::VarDecl { name, data_type, value, access_level } => {
            let vt = expr_type_spec(t.scopes, value);
            let declared = match data_type {
                Some(d) => d,
                None => Seq::empty(),
            };
            let t1 = report(t, var_decl_report(name, declared, vt));
            let resolved = if declared.len() > 0 { ResolvedM::Known(gana_of_name(declared)) } else { vt };
            let t2 = t_insert(t1, name, plain_symbol(name, resolved, t1.depth, access_level));
            let (t3, cv) = check_expr_spec(t2, value);
            (t3, NodeM::VarDecl { name: name, data_type: data_type, value: cv, access_level: access_level })
        },
        NodeM::FuncDecl { name, parameters, return_type, body, access_level } => {
            let f = SymbolM {
                name: name,
                base_name: name,
                karaka: Karaka::Default,
                resolved_type: ResolvedM::Known(gana_of_name(return_type)),
                depth: t.depth,
                is_function: true,
                param_count: parameters.len() as usize,
                param_types: parameters.map_values(|p: (Seq<char>, Seq<char>)| param_info(p)),
                access_level: access_level,
            };
            let t2 = insert_params(t_push(t_insert(t, name, f)), parameters);
            let (t3, cb) = check_nodes_spec(t2, body);
            (t_pop(t3), NodeM::FuncDecl { name: name, parameters: parameters, return_type: return_type, body: cb, access_level: access_level })
        },
        NodeM::IfStmt { condition, then_branch, else_branch } => {
            let (t1, cond) = check_expr_spec(t, condition);
            let t2 = report(t1, condition_report(expr_type_spec(t1.scopes, cond)));
            let (t3, tb) = check_nodes_spec(t_push(t2), then_branch);
            let t4 = t_pop(t3);
            match else_branch {
                Some(eb) => {
                    let (t5, ec) = check_nodes_spec(t_push(t4), eb);
                    (t_pop(t5), NodeM::IfStmt { condition: cond, then_branch: tb, else_branch: Some(ec) })
                },
                None => (t4, NodeM::IfStmt { condition: cond, then_branch: tb, else_branch: None }),
            }
        },
        NodeM::WhileStmt { condition, body } => {
            let (t1, cond) = check_expr_spec(t, condition);
            let (t2, b) = check_nodes_spec(t_push(t1), body);
            (t_pop(t2), NodeM::WhileStmt { condition: cond, body: b })
        },
        NodeM::StatementExpr(e) => {
            let (t1, c) = check_expr_spec(t, e);
            (t1, NodeM::StatementExpr(c))
        },
        NodeM::ReturnStmt(e) => {
            let (t1, c) = check_expr_spec(t, e);
            (t1, NodeM::ReturnStmt(c))
        },
        NodeM::Block(stmts) => {
            let (t1, b) = check_nodes_spec(t_push(t), stmts);
            (t_pop(t1), NodeM::Block(b))
        },
        NodeM::EnumDecl { name, variants, access_level } => {
            let t1 = t_insert(t, name, plain_symbol(name, ResolvedM::UserDefined("रूपभेदः"@), t.depth, access_level));
            (insert_variants(t1, name, variants), n)
        },
        NodeM::StructDecl { name, access_level, .. } => {
            (t_insert(t, name, plain_symbol(name, ResolvedM::UserDefined("वस्तु_विन्यासः"@), t.depth, access_level)), n)
        },
        _ => (t, n),
    }
}

/// Checking statements in order.
pub open spec fn check_nodes_spec(t: TableM, ns: Seq<NodeM>) -> (TableM, Seq<NodeM>)
    decreases ns, 0nat,
{
    if ns.len() == 0 {
        (t, Seq::empty())
    } else {
        let (t1, c) = check_node_spec(t, ns[0]);
        let (t2, rest) = check_nodes_spec(t1, ns.drop_first());
        (t2, seq![c] + rest)
    }
}

/// The kind of a statement, one number per variant.
pub open spec fn node_kind(n: NodeM) -> int {
    match n {
        NodeM::VarDecl { .. } => 0,
        NodeM::FuncDecl { .. } => 1,
        NodeM::GenericFuncDecl { .. } => 2,
        NodeM::AsyncFuncDecl { .. } => 3,
        NodeM::StructDecl { .. } => 4,
        NodeM::TraitDecl { .. } => 5,
        NodeM::ImplBlock { .. } => 6,
        NodeM::EnumDecl { .. } => 7,
        NodeM::IfStmt { .. } => 8,
        NodeM::WhileStmt { .. } => 9,
        NodeM::ModuleDecl { .. } => 10,
        NodeM::ModuleDef { .. } => 11,
        NodeM::ImportDecl { .. } => 12,
        NodeM::SpawnStmt(..) => 13,
        NodeM::DelayStmt(..) => 14,
        NodeM::ReturnStmt(..) => 15,
        NodeM::FFIDecl { .. } => 16,
        NodeM::StatementExpr(..) => 17,
        NodeM::Block(..) => 18,
        NodeM::MacroDecl { .. } => 19,
        NodeM::MacroCall { .. } => 20,
        NodeM::NoOp => 21,
    }
}

/// Checking keeps the shape of a program: one statement for each
/// statement, each of the same kind as the one it came from.
pub proof fn law_check_keeps_shape(t: TableM, ns: Seq<NodeM>)
    ensures
        check_nodes_spec(t, ns).1.len() == ns.len(),
        forall|i: int| 0 <= i < ns.len() ==> node_kind(#[trigger] check_nodes_spec(t, ns).1[i]) == node_kind(ns[i]),
    decreases ns.len(),
{
    if ns.len() > 0 {
        let (t1, c) = check_node_spec(t, ns[0]);
        assert(node_kind(c) == node_kind(ns[0]));
        law_check_keeps_shape(t1, ns.drop_first());
        let rest = check_nodes_spec(t1, ns.drop_first()).1;
        let r = check_nodes_spec(t, ns).1;
        assert(r == seq![c] + rest);
        assert forall|i: int| 0 <= i < ns.len() implies node_kind(#[trigger] r[i]) == node_kind(ns[i]) by {
            if i > 0 {
                assert(r[i] == rest[i - 1]);
                assert(ns[i] == ns.drop_first()[i - 1]);
            }
        }
    }
}

pub proof fn lemma_update_len(scopes: Seq<ScopeM>, name: Seq<char>, state: u8)
    ensures
        update_state_in(scopes, name, state).len() == scopes.len(),
    decreases scopes.len(),
{
    if scopes.len() > 0 {
        lemma_update_len(scopes.drop_last(), name, state);
    }
}

/// Checking expressions keeps the depth and the number of scopes.
pub proof fn lemma_check_expr_frame(t: TableM, e: ExprM)
    ensures
        check_expr_spec(t, e).0.depth == t.depth,
        check_expr_spec(t, e).0.scopes.len() == t.scopes.len(),
    decreases e, 1nat, 0nat,
{
    match e {
        ExprM::Variable(name) => {
            let (base, k) = karaka_of(name);
            lemma_update_len(t.scopes, name, 2u8);
            lemma_update_len(t_err(t, "undefined variable '"@ + name + "'"@).scopes, name, 2u8);
            lemma_update_len(t_err(t_err(t, "undefined variable '"@ + name + "'"@), "variable '"@ + name + "' is declared but not assigned"@).scopes, name, 2u8);
            lemma_update_len(t_err(t, "variable '"@ + name + "' is declared but not assigned"@).scopes, name, 2u8);
        },
        ExprM::Binary { left, op, right } => {
            lemma_check_expr_frame(t, *left);
            lemma_check_expr_frame(check_expr_spec(t, *left).0, *right);
        },
        ExprM::Call { name, args } => {
            let t0 = t_err(t, "undefined function '"@ + name + "'"@);
            lemma_check_args_frame(t0, args, ident_order(args.len()));
            match lookup_in(t.scopes, name) {
                Some(sym) => {
                    let t1 = if args.len() != sym.param_count {
                        t_err(t, "function '"@ + name + "' expects "@ + decimal(sym.param_count as nat) + " arguments, got "@ + decimal(args.len()))
                    } else {
                        t
                    };
                    let (t2, order) = if sym.param_types.len() == 0 {
                        (t1, ident_order(args.len()))
                    } else {
                        match resolve_order(sym.param_types, args) {
                            Ok(o) => (t1, o),
                            Err(m) => (t_err(t1, "in call to '"@ + name + "': "@ + m), ident_order(args.len())),
                        }
                    };
                    lemma_check_args_frame(t2, args, order);
                },
                None => {},
            }
        },
        ExprM::MethodCall { instance, method_name, args } => {
            lemma_check_expr_frame(t, *instance);
            lemma_check_args_frame(check_expr_spec(t, *instance).0, args, ident_order(args.len()));
        },
        ExprM::MatchExpr { eval_target, arms } => {
            lemma_check_expr_frame(t, *eval_target);
            lemma_check_arms_frame(check_expr_spec(t, *eval_target).0, arms);
        },
        _ => {},
    }
}

pub proof fn lemma_check_args_frame(t: TableM, args: Seq<ExprM>, order: Seq<int>)
    ensures
        check_args_spec(t, args, order).0.depth == t.depth,
        check_args_spec(t, args, order).0.scopes.len() == t.scopes.len(),
    decreases args, 0nat, order.len(),
{
    if order.len() > 0 {
        if 0 <= order[0] < args.len() {
            lemma_check_expr_frame(t, args[order[0]]);
            lemma_check_args_frame(check_expr_spec(t, args[order[0]]).0, args, order.drop_first());
        } else {
            lemma_check_args_frame(t, args, order.drop_first());
        }
    }
}

pub proof fn lemma_check_arms_frame(t: TableM, arms: Seq<(Seq<char>, Seq<Seq<char>>, ExprM)>)
    ensures
        check_arms_spec(t, arms).0.depth == t.depth,
        check_arms_spec(t, arms).0.scopes.len() == t.scopes.len(),
    decreases arms, 0nat, arms.len(),
{
    if arms.len() > 0 {
        lemma_check_expr_frame(t, arms[0].2);
        lemma_check_arms_frame(check_expr_spec(t, arms[0].2).0, arms.drop_first());
    }
}

pub proof fn lemma_insert_params_frame(t: TableM, params: Seq<(Seq<char>, Seq<char>)>)
    ensures
        insert_params(t, params).depth == t.depth,
        insert_params(t, params).scopes.len() == t.scopes.len(),
    decreases params.len(),
{
    if params.len() > 0 {
        lemma_insert_params_frame(t_insert(t, params[0].0, param_symbol(params[0], t.depth)), params.drop_first());
    }
}

pub proof fn lemma_insert_variants_frame(t: TableM, n: Seq<char>, variants: Seq<(Seq<char>, Option<Seq<Seq<char>>>)>)
    ensures
        insert_variants(t, n, variants).depth == t.depth,
        insert_variants(t, n, variants).scopes.len() == t.scopes.len(),
    decreases variants.len(),
{
    if variants.len() > 0 {
        let vn = variants[0].0;
        lemma_insert_variants_frame(
            t_insert(t, vn, plain_symbol(vn, ResolvedM::UserDefined(n + "::"@ + vn), t.depth, AccessModifier::Private)),
            n,
            variants.drop_first(),
        );
    }
}

/// Checking statements keeps the depth and the number of scopes (the scopes
/// a statement opens are closed again).
pub proof fn lemma_check_node_frame(t: TableM, n: NodeM)
    requires
        t.depth + node_height(n) <= usize::MAX,
    ensures
        check_node_spec(t, n).0.depth == t.depth,
        check_node_spec(t, n).0.scopes.len() == t.scopes.len(),
    decreases n, 1nat,
{
    match n {
        NodeM::VarDecl { name, data_type, value, access_level } => {
            let vt = expr_type_spec(t.scopes, value);
            let declared = match data_type {
                Some(d) => d,
                None => Seq::empty(),
            };
            let t1 = report(t, var_decl_report(name, declared, vt));
            let resolved = if declared.len() > 0 { ResolvedM::Known(gana_of_name(declared)) } else { vt };
            lemma_check_expr_frame(t_insert(t1, name, plain_symbol(name, resolved, t1.depth, access_level)), value);
        },
        NodeM::FuncDecl { name, parameters, return_type, body, access_level } => {
            let f = SymbolM {
                name: name,
                base_name: name,
                karaka: Karaka::Default,
                resolved_type: ResolvedM::Known(gana_of_name(return_type)),
                depth: t.depth,
                is_function: true,
                param_count: parameters.len() as usize,
                param_types: parameters.map_values(|p: (Seq<char>, Seq<char>)| param_info(p)),
                access_level: access_level,
            };
            let tp = t_push(t_insert(t, name, f));
            lemma_insert_params_frame(tp, parameters);
            lemma_check_nodes_frame(insert_params(tp, parameters), body);
        },
        NodeM::IfStmt { condition, then_branch, else_branch } => {
            lemma_check_expr_frame(t, condition);
            let (t1, cond) = check_expr_spec(t, condition);
            let t2 = report(t1, condition_report(expr_type_spec(t1.scopes, cond)));
            lemma_check_nodes_frame(t_push(t2), then_branch);
            let t4 = t_pop(check_nodes_spec(t_push(t2), then_branch).0);
            if let Some(eb) = else_branch {
                lemma_check_nodes_frame(t_push(t4), eb);
            }
        },
        NodeM::WhileStmt { condition, body } => {
            lemma_check_expr_frame(t, condition);
            lemma_check_nodes_frame(t_push(check_expr_spec(t, condition).0), body);
        },
        NodeM::StatementExpr(e) => {
            lemma_check_expr_frame(t, e);
        },
        NodeM::ReturnStmt(e) => {
            lemma_check_expr_frame(t, e);
        },
        NodeM::Block(stmts) => {
            lemma_check_nodes_frame(t_push(t), stmts);
        },
        NodeM::EnumDecl { name, variants, access_level } => {
            let t1 = t_insert(t, name, plain_symbol(name, ResolvedM::UserDefined("रूपभेदः"@), t.depth, access_level));
            lemma_insert_variants_frame(t1, name, variants);
        },
        _ => {},
    }
}

pub proof fn lemma_check_nodes_frame(t: TableM, ns: Seq<NodeM>)
    requires
        t.depth + nodes_height(ns) <= usize::MAX,
    ensures
        check_nodes_spec(t, ns).0.depth == t.depth,
        check_nodes_spec(t, ns).0.scopes.len() == t.scopes.len(),
    decreases ns, 0nat,
{
    if ns.len() > 0 {
        lemma_check_node_frame(t, ns[0]);
        lemma_check_nodes_frame(check_node_spec(t, ns[0]).0, ns.drop_first());
    }
}

impl TypeChecker {
    fn enter_scope(&mut self)
        requires
            old(self).table@.depth < usize::MAX,
        ensures
            final(self).table@ == t_push(old(self).table@),
    {
        self.table.push_scope();
    }

    fn insert_params(&mut self, parameters: &Vec<(String, String)>)
        ensures
            final(self).table@ == insert_params(old(self).table@, pairs_m(parameters@)),
    {
        let ghost pm = pairs_m(parameters@);
        let ghost t0 = self.table@;
        assert(pm.subrange(0, pm.len() as int) =~= pm);
        let mut i: usize = 0;
        while i < parameters.len()
            invariant
                i <= parameters@.len(),
                pm == pairs_m(parameters@),
                insert_params(t0, pm) == insert_params(self.table@, pm.subrange(i as int, pm.len() as int)),
            decreases parameters@.len() - i,
        {
            let ghost rest = pm.subrange(i as int, pm.len() as int);
            assert(rest[0] == (parameters@[i as int].0@, parameters@[i as int].1@));
            assert(rest.drop_first() =~= pm.subrange(i + 1, pm.len() as int));
            let (p_name, p_type) = (&parameters[i].0, &parameters[i].1);
            let (base, karaka) = extract_karaka(p_name.as_str());
            let e: Vec<(String, String, Karaka, ResolvedType)> = Vec::new();
            assert(params_m(e@) =~= Seq::<ParamM>::empty());
            let sym = Symbol {
                name: p_name.clone(),
                base_name: base,
                karaka,
                resolved_type: ResolvedType::Known(gana_from_str(p_type.as_str())),
                depth: self.table.current_depth,
                is_function: false,
                param_count: 0,
                param_types: e,
                access_level: AccessModifier::Private,
            };
            assert(self.table@.depth == self.table.current_depth);
            self.table.insert(p_name.clone(), sym);
            i = i + 1;
        }
        assert(pm.subrange(i as int, pm.len() as int) =~= Seq::<(Seq<char>, Seq<char>)>::empty());
    }

    fn param_infos(parameters: &Vec<(String, String)>) -> (r: Vec<(String, String, Karaka, ResolvedType)>)
        ensures
            params_m(r@) == pairs_m(parameters@).map_values(|p: (Seq<char>, Seq<char>)| param_info(p)),
    {
        let mut r: Vec<(String, String, Karaka, ResolvedType)> = Vec::new();
        let mut i: usize = 0;
        while i < parameters.len()
            invariant
                i <= parameters@.len(),
                r@.len() == i,
                forall|j: int| 0 <= j < i ==> #[trigger] params_m(r@)[j] == param_info((parameters@[j].0@, parameters@[j].1@)),
            decreases parameters@.len() - i,
        {
            let (base, karaka) = extract_karaka(parameters[i].0.as_str());
            let ghost prev = r@;
            r.push((parameters[i].0.clone(), base, karaka, ResolvedType::Known(gana_from_str(parameters[i].1.as_str()))));
            assert forall|j: int| 0 <= j < i + 1 implies #[trigger] params_m(r@)[j] == param_info((parameters@[j].0@, parameters@[j].1@)) by {
                if j < i {
                    assert(params_m(r@)[j] == params_m(prev)[j]);
                }
            }
            i = i + 1;
        }
        assert(params_m(r@) =~= pairs_m(parameters@).map_values(|p: (Seq<char>, Seq<char>)| param_info(p)));
        r
    }

    fn insert_variants(&mut self, name: &String, variants: &Vec<(String, Option<Vec<String>>)>)
        ensures
            final(self).table@ == insert_variants(old(self).table@, name@, variants_m(variants@)),
    {
        let ghost vm = variants_m(variants@);
        let ghost t0 = self.table@;
        assert(vm.subrange(0, vm.len() as int) =~= vm);
        let mut i: usize = 0;
        while i < variants.len()
            invariant
                i <= variants@.len(),
                vm == variants_m(variants@),
                insert_variants(t0, name@, vm) == insert_variants(self.table@, name@, vm.subrange(i as int, vm.len() as int)),
            decreases variants@.len() - i,
        {
            let ghost rest = vm.subrange(i as int, vm.len() as int);
            assert(rest[0].0 == variants@[i as int].0@);
            assert(rest.drop_first() =~= vm.subrange(i + 1, vm.len() as int));
            let vn = &variants[i].0;
            let mut full = name.clone();
            push_str(&mut full, "::");
            push_str(&mut full, vn.as_str());
            let e: Vec<(String, String, Karaka, ResolvedType)> = Vec::new();
            assert(params_m(e@) =~= Seq::<ParamM>::empty());
            let sym = Symbol {
                name: vn.clone(),
                base_name: vn.clone(),
                karaka: Karaka::Default,
                resolved_type: ResolvedType::UserDefined(full),
                depth: self.table.current_depth,
                is_function: false,
                param_count: 0,
                param_types: e,
                access_level: AccessModifier::Private,
            };
            assert(self.table@.depth == self.table.current_depth);
            self.table.insert(vn.clone(), sym);
            i = i + 1;
        }
        assert(vm.subrange(i as int, vm.len() as int) =~= Seq::<(Seq<char>, Option<Seq<Seq<char>>>)>::empty());
    }

    fn declare(&mut self, name: &String, t: ResolvedType, access: AccessModifier)
        ensures
            final(self).table@ == t_insert(old(self).table@, name@, plain_symbol(name@, t@, old(self).table@.depth, access)),
    {
        let e: Vec<(String, String, Karaka, ResolvedType)> = Vec::new();
        assert(params_m(e@) =~= Seq::<ParamM>::empty());
        let sym = Symbol {
            name: name.clone(),
            base_name: name.clone(),
            karaka: Karaka::Default,
            resolved_type: t,
            depth: self.table.current_depth,
            is_function: false,
            param_count: 0,
            param_types: e,
            access_level: access,
        };
        assert(self.table@.depth == self.table.current_depth);
        self.table.insert(name.clone(), sym);
    }

    fn check_var_decl(&mut self, name: &String, data_type: &Option<String>, value: &Expression, access: AccessModifier)
        ensures
            final(self).table@ == ({
                let t = old(self).table@;
                let vt = expr_type_spec(t.scopes, value@);
                let declared = match opt_str_m(*data_type) {
                    Some(d) => d,
                    None => Seq::empty(),
                };
                let t1 = report(t, var_decl_report(name@, declared, vt));
                let resolved = if declared.len() > 0 { ResolvedM::Known(gana_of_name(declared)) } else { vt };
                t_insert(t1, name@, plain_symbol(name@, resolved, t1.depth, access))
            }),
    {
        let val_type = expr_type(value, &self.table);
        let declared: String = match data_type {
            Some(d) => d.clone(),
            None => String::new(),
        };
        let has_decl = !declared.as_str().is_empty();
        if has_decl && !matches!(val_type, ResolvedType::Unknown) {
            let expected = Some(gana_from_str(declared.as_str()).typ());
            let val_bits = gana_type_bits(&val_type);
            if val_bits.is_some() && val_bits != expected {
                let mut m = owned("type mismatch: variable '");
                push_str(&mut m, name.as_str());
                push_str(&mut m, "' declared as '");
                push_str(&mut m, declared.as_str());
                push_str(&mut m, "' but value has type '");
                push_str(&mut m, resolved_debug_text(&val_type).as_str());
                push_str(&mut m, "'");
                self.table.push_error(m);
            }
        }
        let resolved = if has_decl { ResolvedType::Known(gana_from_str(declared.as_str())) } else { val_type };
        self.declare(name, resolved, access);
    }
}

pub open spec fn nodes_progress(t: TableM, ns: Seq<NodeM>, j: int, done: Seq<NodeM>) -> (TableM, Seq<NodeM>) {
    let r = check_nodes_spec(t, ns.subrange(j, ns.len() as int));
    (r.0, done + r.1)
}

/// No statement of a list nests deeper than the list.
pub proof fn lemma_nodes_height(ns: Seq<NodeM>, i: int)
    requires
        0 <= i < ns.len(),
    ensures
        node_height(ns[i]) <= nodes_height(ns),
        nodes_height(ns.subrange(i, ns.len() as int)) <= nodes_height(ns),
    decreases i,
{
    if i > 0 {
        lemma_nodes_height(ns.drop_first(), i - 1);
        assert(ns.drop_first().subrange(i - 1, ns.drop_first().len() as int) =~= ns.subrange(i, ns.len() as int));
    } else {
        assert(ns.subrange(0, ns.len() as int) =~= ns);
    }
}

/// The model of a list of messages.
pub open spec fn msgs_m(s: Seq<String>) -> Seq<Seq<char>> {
    s.map_values(|e: String| e@)
}

impl TypeChecker {
    fn check_nodes(&mut self, nodes: &Vec<ASTNode>) -> (r: Vec<ASTNode>)
        requires
            old(self).table@.depth + nodes_height(nodes_m(nodes@)) <= usize::MAX,
        ensures
            (final(self).table@, nodes_m(r@)) == check_nodes_spec(old(self).table@, nodes_m(nodes@)),
        decreases nodes, 0nat,
    {
        let ghost nm = nodes_m(nodes@);
        let ghost t0 = self.table@;
        proof {
            lemma_nodes_m(nodes@);
            assert(nm.subrange(0, nm.len() as int) =~= nm);
            assert(nodes_m(Seq::<ASTNode>::empty()) + check_nodes_spec(t0, nm).1 =~= check_nodes_spec(t0, nm).1);
        }
        let mut out: Vec<ASTNode> = Vec::new();
        let mut i: usize = 0;
        while i < nodes.len()
            invariant
                i <= nodes@.len(),
                nm == nodes_m(nodes@),
                nm.len() == nodes@.len(),
                forall|q: int| 0 <= q < nodes@.len() ==> #[trigger] nm[q] == node_m(nodes@[q]),
                self.table@.depth == t0.depth,
                t0.depth + nodes_height(nm) <= usize::MAX,
                check_nodes_spec(t0, nm) == nodes_progress(self.table@, nm, i as int, nodes_m(out@)),
            decreases nodes@.len() - i,
        {
            let ghost rest = nm.subrange(i as int, nm.len() as int);
            assert(rest[0] == nm[i as int]);
            assert(rest.drop_first() =~= nm.subrange(i + 1, nm.len() as int));
            assert(decreases_to!(*nodes => nodes@));
            assert(decreases_to!(nodes@ => nodes@[i as int]));
            proof {
                lemma_nodes_height(nm, i as int);
                lemma_check_node_frame(self.table@, nm[i as int]);
            }
            let ghost before = nodes_m(out@);
            let c = self.check_node_ref(&nodes[i]);
            proof {
                lemma_nodes_m_push(out@, c);
            }
            out.push(c);
            proof {
                let r1 = check_nodes_spec(self.table@, rest.drop_first());
                assert(before + (seq![node_m(c)] + r1.1) =~= nodes_m(out@) + r1.1);
            }
            i = i + 1;
        }
        proof {
            assert(nm.subrange(i as int, nm.len() as int) =~= Seq::<NodeM>::empty());
            assert(nodes_m(out@) + Seq::<NodeM>::empty() =~= nodes_m(out@));
        }
        out
    }

    #[verifier::rlimit(40)]
    fn check_node_ref(&mut self, node: &ASTNode) -> (r: ASTNode)
        requires
            old(self).table@.depth + node_height(node@) <= usize::MAX,
        ensures
            (final(self).table@, r@) == check_node_spec(old(self).table@, node@),
        decreases node, 1nat,
    {
        let ghost t0 = self.table@;
        match node {
            ASTNode::VarDecl { name, data_type, value, access_level } => {
                self.check_var_decl(name, data_type, value, *access_level);
                let cv = self.check_expr_ref(value);
                let dt = match data_type {
                    Some(d) => Some(d.clone()),
                    None => None,
                };
                ASTNode::VarDecl { name: name.clone(), data_type: dt, value: cv, access_level: *access_level }
            },
            ASTNode::FuncDecl { name, parameters, return_type, body, access_level } => {
                let param_types = Self::param_infos(parameters);
                let sym = Symbol {
                    name: name.clone(),
                    base_name: name.clone(),
                    karaka: Karaka::Default,
                    resolved_type: ResolvedType::Known(gana_from_str(return_type.as_str())),
                    depth: self.table.current_depth,
                    is_function: true,
                    param_count: parameters.len(),
                    param_types,
                    access_level: *access_level,
                };
                assert(self.table@.depth == self.table.current_depth);
                self.table.insert(name.clone(), sym);
                self.enter_scope();
                proof {
                    lemma_insert_params_frame(self.table@, pairs_m(parameters@));
                }
                self.insert_params(parameters);
                let cb = self.check_nodes(body);
                self.table.pop_scope();
                ASTNode::FuncDecl {
                    name: name.clone(),
                    parameters: clone_pairs(parameters),
                    return_type: return_type.clone(),
                    body: cb,
                    access_level: *access_level,
                }
            },
            ASTNode::IfStmt { .. } => {
                self.check_if(node)
            },
            ASTNode::WhileStmt { condition, body } => {
                proof {
                    lemma_check_expr_frame(t0, condition@);
                }
                let cond = self.check_expr_ref(condition);
                self.enter_scope();
                let b = self.check_nodes(body);
                self.table.pop_scope();
                ASTNode::WhileStmt { condition: cond, body: b }
            },
            ASTNode::StatementExpr(e) => {
                let c = self.check_expr_ref(e);
                ASTNode::StatementExpr(c)
            },
            ASTNode::ReturnStmt(e) => {
                let c = self.check_expr_ref(e);
                ASTNode::ReturnStmt(c)
            },
            ASTNode::Block(stmts) => {
                self.enter_scope();
                let b = self.check_nodes(stmts);
                self.table.pop_scope();
                ASTNode::Block(b)
            },
            ASTNode::EnumDecl { name, variants, access_level } => {
                self.declare(name, ResolvedType::UserDefined(owned("रूपभेदः")), *access_level);
                self.insert_variants(name, variants);
                clone_node(node)
            },
            ASTNode::StructDecl { name, access_level, .. } => {
                self.declare(name, ResolvedType::UserDefined(owned("वस्तु_विन्यासः")), *access_level);
                clone_node(node)
            },
            _ => clone_node(node),
        }
    }

    fn check_if(&mut self, node: &ASTNode) -> (r: ASTNode)
        requires
            node is IfStmt,
            old(self).table@.depth + node_height(node@) <= usize::MAX,
        ensures
            (final(self).table@, r@) == check_node_spec(old(self).table@, node@),
        decreases node, 0nat,
    {
        let ghost t0 = self.table@;
        match node {
            ASTNode::IfStmt { condition, then_branch, else_branch } => {
                proof {
                    lemma_check_expr_frame(t0, condition@);
                }
                let cond = self.check_expr_ref(condition);
                let ct = expr_type(&cond, &self.table);
                let cb = gana_type_bits(&ct);
                if !matches!(ct, ResolvedType::Unknown) && cb != Some(2u8) {
                    let mut m = owned("if condition must be boolean (सत्यता), got '");
                    push_str(&mut m, resolved_debug_text(&ct).as_str());
                    push_str(&mut m, "'");
                    self.table.push_error(m);
                }
                self.enter_scope();
                let ghost tp = self.table@;
                proof {
                    lemma_check_nodes_frame(tp, nodes_m(then_branch@));
                }
                let tb = self.check_nodes(then_branch);
                self.table.pop_scope();
                let eb = match else_branch {
                    Some(b) => {
                        self.enter_scope();
                        let c = self.check_nodes(b);
                        self.table.pop_scope();
                        Some(c)
                    },
                    None => None,
                };
                ASTNode::IfStmt { condition: cond, then_branch: tb, else_branch: eb }
            },
            _ => clone_node(node),
        }
    }

    /// Checks a program: declarations enter the symbol table, reads and
    /// operators are checked, call arguments are put in parameter order.
    /// Any error reported (now or before) makes the result the list of
    /// errors, which the table then forgets.
    pub fn check_program(&mut self, nodes: Vec<ASTNode>) -> (r: Result<Vec<ASTNode>, Vec<String>>)
        requires
            old(self).table@.depth + nodes_height(nodes_m(nodes@)) <= usize::MAX,
        ensures
            ({
                let (t, ns) = check_nodes_spec(old(self).table@, nodes_m(nodes@));
                if t.errors.len() > 0 {
                    r matches Err(es) && msgs_m(es@) == t.errors && final(self).table@ == (TableM { errors: Seq::empty(), ..t })
                } else {
                    r matches Ok(v) && nodes_m(v@) == ns && final(self).table@ == t
                }
            }),
            final(self).table@.errors.len() == 0,
            r matches Err(es) ==> es@.len() > 0,
            r matches Ok(v) ==> v@.len() == nodes@.len()
                && forall|i: int| 0 <= i < v@.len() ==> node_kind(#[trigger] nodes_m(v@)[i]) == node_kind(nodes_m(nodes@)[i]),
    {
        proof {
            law_check_keeps_shape(self.table@, nodes_m(nodes@));
        }
        let rewritten = self.check_nodes(&nodes);
        proof {
            lemma_nodes_m(nodes@);
            lemma_nodes_m(rewritten@);
        }
        if self.table.has_errors() {
            Err(self.table.take_errors())
        } else {
            Ok(rewritten)
        }
    }
}

} // verus!
