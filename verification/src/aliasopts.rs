//! Command-line options with aliases.
//!
//! Options are declared first (`add`, `add_alias`), then a list of
//! arguments is parsed against them. An option takes its value from the
//! next argument (`--file foo`) or after an equals sign (`--file=foo`); a
//! flag takes none. An alias stands for the option it was declared for.
//! Arguments that are no option are kept, in order, as loose arguments.
use vstd::prelude::*;
use crate::assoc::{assoc_find, assoc_get, assoc_insert, assoc_pos, lemma_insert, lemma_pos_bounds, lemma_pos_unique, unique_keys};
use crate::text::{chars_from, chars_of, is_prefix, starts_with, string_of};

verus! {

broadcast use vstd::string::group_string_axioms;

/// The kind of a declared option.
#[derive(Debug, Clone, Copy, PartialEq, Eq, Structural)]
pub enum CT {
    /// An option that takes a value.
    CTString,
    /// An option without a value.
    Flag,
    /// Another name for a declared option.
    Alias,
}

/// Declared options, the values found for them, and the loose arguments.
#[derive(Debug)]
pub struct AliasOpts {
    patterns: Vec<(String, (CT, String))>,
    values: Vec<(String, String)>,
    loose: Vec<String>,
}

/// What an `AliasOpts` holds, as mathematical values.
pub struct OptsView {
    /// Each declared name with its kind and, for an alias, the name it stands for.
    pub patterns: Seq<(Seq<char>, (CT, Seq<char>))>,
    /// Each option that got a value, with that value.
    pub values: Seq<(Seq<char>, Seq<char>)>,
    /// The loose arguments, in the order in which they came.
    pub loose: Seq<Seq<char>>,
}

pub open spec fn patterns_view(s: Seq<(String, (CT, String))>) -> Seq<(Seq<char>, (CT, Seq<char>))> {
    s.map_values(|e: (String, (CT, String))| (e.0@, (e.1.0, e.1.1@)))
}

pub open spec fn values_view(s: Seq<(String, String)>) -> Seq<(Seq<char>, Seq<char>)> {
    s.map_values(|e: (String, String)| (e.0@, e.1@))
}

pub open spec fn strings_view(s: Seq<String>) -> Seq<Seq<char>> {
    s.map_values(|e: String| e@)
}

impl View for AliasOpts {
    type V = OptsView;

    closed spec fn view(&self) -> OptsView {
        OptsView {
            patterns: patterns_view(self.patterns@),
            values: values_view(self.values@),
            loose: strings_view(self.loose@),
        }
    }
}

/// An optional string, as an optional sequence of characters.
pub open spec fn opt_view(o: Option<String>) -> Option<Seq<char>> {
    match o {
        Some(s) => Some(s@),
        None => None,
    }
}

/// Patterns as the parser sees them.
pub type Patterns = Seq<(Seq<char>, (CT, Seq<char>))>;

/// Values as the parser builds them.
pub type Values = Seq<(Seq<char>, Seq<char>)>;

impl OptsView {
    /// No name is declared twice and no option holds two values.
    pub open spec fn inv(self) -> bool {
        unique_keys(self.patterns) && unique_keys(self.values)
    }

    /// Every alias stands for a declared name.
    pub open spec fn aliases_resolve(self) -> bool {
        targets_resolve(self.patterns)
    }
}

/// Every alias in `p` stands for a name declared in `p`.
pub open spec fn targets_resolve(p: Patterns) -> bool {
    forall|i: int|
        0 <= i < p.len() && (#[trigger] p[i]).1.0 == CT::Alias ==> assoc_get(p, p[i].1.1) is Some
}

/// The name under which an argument that names the declared entry `e`
/// stores its value, and the kind that decides how it takes one. An alias
/// stores under the name it stands for, with that name's kind.
pub open spec fn resolve(p: Patterns, name: Seq<char>, e: (CT, Seq<char>)) -> (Seq<char>, CT) {
    if e.0 == CT::Alias {
        (
            e.1,
            match assoc_get(p, e.1) {
                Some(t) => t.0,
                None => CT::Alias,
            },
        )
    } else {
        (name, e.0)
    }
}

/// A declared name followed by an equals sign.
pub open spec fn key_eq(k: Seq<char>) -> Seq<char> {
    k.push('=')
}

/// The first declared entry, from position `j` on, whose name followed by
/// '=' begins the argument `a`.
pub open spec fn first_eq_match(p: Patterns, a: Seq<char>, j: int) -> Option<int>
    decreases p.len() - j,
{
    if j < 0 || j >= p.len() {
        None
    } else if is_prefix(key_eq(p[j].0), a) {
        Some(j)
    } else {
        first_eq_match(p, a, j + 1)
    }
}

/// The values and loose arguments after parsing `args` from position `i` on,
/// starting from `vals` and `loose`.
pub open spec fn parse_from(
    p: Patterns,
    vals: Values,
    loose: Seq<Seq<char>>,
    args: Seq<Seq<char>>,
    i: int,
) -> (Values, Seq<Seq<char>>)
    decreases args.len() - i,
{
    if i < 0 || i >= args.len() {
        (vals, loose)
    } else {
        let a = args[i];
        match assoc_get(p, a) {
            Some(e) => {
                let r = resolve(p, a, e);
                if r.1 == CT::Flag {
                    parse_from(p, assoc_insert(vals, r.0, Seq::empty()), loose, args, i + 1)
                } else if i + 1 < args.len() && assoc_get(p, args[i + 1]) is None {
                    parse_from(p, assoc_insert(vals, r.0, args[i + 1]), loose, args, i + 2)
                } else {
                    parse_from(p, vals, loose, args, i + 1)
                }
            },
            None => match first_eq_match(p, a, 0) {
                Some(j) => {
                    let z = a.skip(p[j].0.len() + 1int);
                    let r = resolve(p, p[j].0, p[j].1);
                    if z.len() > 0 && r.1 != CT::Flag {
                        parse_from(p, assoc_insert(vals, r.0, z), loose, args, i + 1)
                    } else {
                        parse_from(p, vals, loose, args, i + 1)
                    }
                },
                None => parse_from(p, vals, loose.push(a), args, i + 1),
            },
        }
    }
}

/// Every option holding a value is a declared name.
pub open spec fn keys_registered(p: Patterns, vals: Values) -> bool {
    forall|i: int| 0 <= i < vals.len() ==> (assoc_get(p, #[trigger] vals[i].0) is Some)
}

/// `name` is declared as an alias of a name that is not declared.
pub open spec fn dangling(p: Patterns, name: Seq<char>) -> bool {
    assoc_get(p, name) matches Some(e) && e.0 == CT::Alias && assoc_get(p, e.1) is None
}

/// Reading the argument `a` needs the name that an alias stands for, and
/// that name is not declared: `a` is such an alias, or (being no declared
/// name) begins with the first declared name that, followed by '=', begins
/// it, that name is such an alias, and a value follows the '='.
pub open spec fn dangling_step(p: Patterns, a: Seq<char>) -> bool {
    match assoc_get(p, a) {
        Some(e) => e.0 == CT::Alias && assoc_get(p, e.1) is None,
        None => match first_eq_match(p, a, 0) {
            Some(j) => a.len() > p[j].0.len() + 1 && dangling(p, p[j].0),
            None => false,
        },
    }
}

/// Parsing `args` from position `i` on reaches an argument whose reading
/// needs an undeclared name (see `dangling_step`); the positions visited
/// are those of `parse_from`, a value taken by an option being skipped.
pub open spec fn hits_dangling(p: Patterns, args: Seq<Seq<char>>, i: int) -> bool
    decreases args.len() - i,
{
    if i < 0 || i >= args.len() {
        false
    } else if dangling_step(p, args[i]) {
        true
    } else {
        match assoc_get(p, args[i]) {
            Some(e) => {
                let r = resolve(p, args[i], e);
                if r.1 == CT::Flag {
                    hits_dangling(p, args, i + 1)
                } else if i + 1 < args.len() && assoc_get(p, args[i + 1]) is None {
                    hits_dangling(p, args, i + 2)
                } else {
                    hits_dangling(p, args, i + 1)
                }
            },
            None => hits_dangling(p, args, i + 1),
        }
    }
}

proof fn lemma_registered_insert(p: Patterns, vals: Values, k: Seq<char>, v: Seq<char>)
    requires
        keys_registered(p, vals),
        assoc_get(p, k) is Some,
    ensures
        keys_registered(p, assoc_insert(vals, k, v)),
{
    lemma_pos_bounds(vals, k);
    let w = assoc_insert(vals, k, v);
    assert forall|i: int| 0 <= i < w.len() implies (assoc_get(p, #[trigger] w[i].0) is Some) by {
        if i < vals.len() && i != assoc_pos(vals, k) {
            assert(w[i] == vals[i]);
        }
    }
}

proof fn lemma_registered_grow(p: Patterns, vals: Values, k: Seq<char>, e: (CT, Seq<char>))
    requires
        unique_keys(p),
        keys_registered(p, vals),
    ensures
        keys_registered(assoc_insert(p, k, e), vals),
{
    lemma_insert(p, k, e);
    assert forall|i: int| 0 <= i < vals.len() implies (assoc_get(assoc_insert(p, k, e), #[trigger] vals[i].0)
        is Some) by {
        assert(assoc_get(p, vals[i].0) is Some);
    }
}

/// The name under which an argument that names the declared entry at `j`
/// stores its value is declared, unless the entry is a dangling alias.
proof fn lemma_resolved_registered(p: Patterns, j: int)
    requires
        unique_keys(p),
        0 <= j < p.len(),
        !dangling(p, p[j].0),
    ensures
        assoc_get(p, resolve(p, p[j].0, p[j].1).0) is Some,
{
    lemma_pos_unique(p, j);
}

/// The first declared entry whose name followed by '=' begins `a`.
fn first_eq(keys: &Vec<Vec<char>>, a: &Vec<char>, Ghost(p): Ghost<Patterns>) -> (r: Option<usize>)
    requires
        keys@.len() == p.len(),
        forall|j: int| 0 <= j < p.len() ==> (#[trigger] keys@[j])@ == key_eq(p[j].0),
    ensures
        r matches Some(j) ==> first_eq_match(p, a@, 0) == Some(j as int) && j < p.len()
            && is_prefix(key_eq(p[j as int].0), a@),
        r is None ==> first_eq_match(p, a@, 0) is None,
{
    let mut j: usize = 0;
    while j < keys.len()
        invariant
            keys@.len() == p.len(),
            forall|m: int| 0 <= m < p.len() ==> (#[trigger] keys@[m])@ == key_eq(p[m].0),
            j <= p.len(),
            first_eq_match(p, a@, 0) == first_eq_match(p, a@, j as int),
        decreases p.len() - j,
    {
        if starts_with(a, &keys[j]) {
            return Some(j);
        }
        j = j + 1;
    }
    None
}

/// Redeclaring a name keeps every alias that resolved resolving, and an
/// alias that is added resolves when its target is declared.
proof fn lemma_insert_keeps_targets(p: Patterns, k: Seq<char>, e: (CT, Seq<char>))
    requires
        unique_keys(p),
        targets_resolve(p),
        e.0 == CT::Alias ==> assoc_get(p, e.1) is Some,
    ensures
        targets_resolve(assoc_insert(p, k, e)),
{
    lemma_insert(p, k, e);
    lemma_pos_bounds(p, k);
    let q = assoc_insert(p, k, e);
    assert forall|i: int| 0 <= i < q.len() && (#[trigger] q[i]).1.0 == CT::Alias implies assoc_get(
        q,
        q[i].1.1,
    ) is Some by {
        if i < p.len() && i != assoc_pos(p, k) {
            assert(q[i] == p[i]);
            assert(assoc_get(p, p[i].1.1) is Some);
        }
    }
}

/// Stores `v` under `k`, in place when `k` already has a value.
fn set_value(values: &mut Vec<(String, String)>, k: String, v: String)
    requires
        unique_keys(values_view(old(values)@)),
    ensures
        values_view(final(values)@) == assoc_insert(values_view(old(values)@), k@, v@),
        unique_keys(values_view(final(values)@)),
{
    let ghost s = values_view(values@);
    proof {
        lemma_insert(s, k@, v@);
        lemma_pos_bounds(s, k@);
    }
    match assoc_find(values, &k) {
        Some(i) => {
            proof {
                lemma_pos_unique(s, i as int);
            }
            values.set(i, (k, v));
            assert(values_view(values@) =~= s.update(i as int, (k@, v@)));
        },
        None => {
            values.push((k, v));
            assert(values_view(values@) =~= s.push((k@, v@)));
        },
    }
}

impl AliasOpts {
    /// No name is declared twice and no option holds two values.
    #[verifier::type_invariant]
    spec fn well_formed(self) -> bool {
        self@.inv() && keys_registered(self@.patterns, self@.values)
    }

    /// No options declared, no values, no loose arguments.
    pub fn new() -> (r: AliasOpts)
        ensures
            r@.patterns == Seq::<(Seq<char>, (CT, Seq<char>))>::empty(),
            r@.values == Seq::<(Seq<char>, Seq<char>)>::empty(),
            r@.loose == Seq::<Seq<char>>::empty(),
            r@.inv(),
            r@.aliases_resolve(),
    {
        let r = AliasOpts { patterns: Vec::new(), values: Vec::new(), loose: Vec::new() };
        assert(r@.patterns =~= Seq::<(Seq<char>, (CT, Seq<char>))>::empty());
        assert(r@.values =~= Seq::<(Seq<char>, Seq<char>)>::empty());
        assert(r@.loose =~= Seq::<Seq<char>>::empty());
        r
    }

    /// Declares the option `s` of kind `ct` (replacing an earlier
    /// declaration of the same name); returns the options for chaining.
    pub fn add(&mut self, s: &str, ct: CT) -> (r: &mut AliasOpts)
        ensures
            r@.patterns == assoc_insert(old(self)@.patterns, s@, (ct, Seq::<char>::empty())),
            r@.values == old(self)@.values,
            r@.loose == old(self)@.loose,
            r@.inv(),
            ct != CT::Alias && old(self)@.aliases_resolve() ==> r@.aliases_resolve(),
            *final(self) == *final(r),
    {
        proof {
            use_type_invariant(&*self);
        }
        let ghost before = self@.patterns;
        self.set_pattern(s.to_string(), (ct, String::new()));
        proof {
            lemma_insert(before, s@, (ct, Seq::<char>::empty()));
            if ct != CT::Alias && targets_resolve(before) {
                lemma_insert_keeps_targets(before, s@, (ct, Seq::<char>::empty()));
            }
        }
        self
    }

    /// Declares `alias` as another name for the option `alias_for`, when
    /// `alias_for` is declared and is not itself an alias; otherwise changes
    /// nothing. Returns the options for chaining.
    pub fn add_alias(&mut self, alias: &str, alias_for: &str) -> (r: &mut AliasOpts)
        ensures
            r@.patterns == if (assoc_get(old(self)@.patterns, alias_for@) matches Some(e) && e.0
                != CT::Alias) {
                assoc_insert(old(self)@.patterns, alias@, (CT::Alias, alias_for@))
            } else {
                old(self)@.patterns
            },
            r@.values == old(self)@.values,
            r@.loose == old(self)@.loose,
            r@.inv(),
            old(self)@.aliases_resolve() ==> r@.aliases_resolve(),
            *final(self) == *final(r),
    {
        proof {
            use_type_invariant(&*self);
        }
        let ghost before = self@.patterns;
        let target = alias_for.to_string();
        proof {
            lemma_pos_bounds(before, alias_for@);
        }
        match assoc_find(&self.patterns, &target) {
            Some(i) => {
                proof {
                    lemma_pos_unique(before, i as int);
                }
                if self.patterns[i].1.0 != CT::Alias {
                    self.set_pattern(alias.to_string(), (CT::Alias, target));
                    proof {
                        lemma_insert(before, alias@, (CT::Alias, alias_for@));
                        if targets_resolve(before) {
                            lemma_insert_keeps_targets(before, alias@, (CT::Alias, alias_for@));
                        }
                    }
                }
            },
            None => {},
        }
        self
    }

    /// Parses `args` against the declared options: each option found gets
    /// its value (the last one given wins), every other argument is kept as
    /// a loose argument, after those found before. Returns the options for
    /// chaining. Not to be called where reading an argument needs the name
    /// that an undeclared alias stands for (see `dangling_use`).
    pub fn parse(&mut self, args: Vec<String>) -> (r: &mut AliasOpts)
        requires
            !hits_dangling(old(self)@.patterns, strings_view(args@), 0),
        ensures
            r@.patterns == old(self)@.patterns,
            (r@.values, r@.loose) == parse_from(
                old(self)@.patterns,
                old(self)@.values,
                old(self)@.loose,
                strings_view(args@),
                0,
            ),
            r@.inv(),
            r@.aliases_resolve() == old(self)@.aliases_resolve(),
            is_prefix_of(old(self)@.loose, r@.loose),
            r@.loose.len() <= old(self)@.loose.len() + args@.len(),
            *final(self) == *final(r),
    {
        proof {
            use_type_invariant(&*self);
            lemma_loose_grows(
                self@.patterns,
                self@.values,
                self@.loose,
                strings_view(args@),
                0,
            );
        }
        let ghost p = self@.patterns;
        let ghost av = strings_view(args@);
        let ghost target = parse_from(p, self@.values, self@.loose, av, 0);
        let eq_keys = self.eq_keys();
        let mut vals: Vec<(String, String)> = Vec::new();
        let mut loose: Vec<String> = Vec::new();
        std::mem::swap(&mut vals, &mut self.values);
        std::mem::swap(&mut loose, &mut self.loose);
        let mut i: usize = 0;
        while i < args.len()
            invariant
                self@.patterns == p,
                unique_keys(p),
                unique_keys(values_view(vals@)),
                keys_registered(p, values_view(vals@)),
                !hits_dangling(p, av, i as int),
                av == strings_view(args@),
                i <= args@.len(),
                parse_from(p, values_view(vals@), strings_view(loose@), av, i as int) == target,
                eq_keys@.len() == p.len(),
                forall|j: int| 0 <= j < p.len() ==> (#[trigger] eq_keys@[j])@ == key_eq(p[j].0),
            decreases args@.len() - i,
        {
            proof {
                lemma_pos_bounds(p, av[i as int]);
            }
            match assoc_find(&self.patterns, &args[i]) {
                Some(pi) => {
                    proof {
                        lemma_pos_unique(p, pi as int);
                    }
                    let (k, ct) = self.resolve_at(pi, &args[i]);
                    proof {
                        assert(av[i as int] == args@[i as int]@);
                        lemma_resolved_registered(p, pi as int);
                    }
                    let ghost vv = values_view(vals@);
                    if ct == CT::Flag {
                        set_value(&mut vals, k, String::new());
                        proof {
                            lemma_registered_insert(p, vv, k@, Seq::empty());
                        }
                        i = i + 1;
                    } else if i + 1 < args.len() {
                        proof {
                            lemma_pos_bounds(p, av[i + 1]);
                        }
                        match assoc_find(&self.patterns, &args[i + 1]) {
                            None => {
                                let v = args[i + 1].clone();
                                let ghost vs = v@;
                                set_value(&mut vals, k, v);
                                proof {
                                    lemma_registered_insert(p, vv, k@, vs);
                                }
                                i = i + 2;
                            },
                            Some(ni) => {
                                assert(p[ni as int].0 == av[i + 1]);
                                i = i + 1;
                            },
                        }
                    } else {
                        i = i + 1;
                    }
                },
                None => {
                    let a = chars_of(args[i].as_str());
                    match first_eq(&eq_keys, &a, Ghost(p)) {
                        Some(j) => {
                            let z = chars_from(&a, eq_keys[j].len());
                            let name = self.patterns[j].0.clone();
                            let (k, ct) = self.resolve_at(j, &name);
                            if z.len() > 0 && ct != CT::Flag {
                                proof {
                                    assert(av[i as int] == a@);
                                    lemma_resolved_registered(p, j as int);
                                }
                                let ghost vv = values_view(vals@);
                                let zs = string_of(&z);
                                let ghost zv = zs@;
                                set_value(&mut vals, k, zs);
                                proof {
                                    lemma_registered_insert(p, vv, k@, zv);
                                }
                            }
                            i = i + 1;
                        },
                        None => {
                            let ghost before = strings_view(loose@);
                            loose.push(args[i].clone());
                            assert(strings_view(loose@) =~= before.push(av[i as int]));
                            i = i + 1;
                        },
                    }
                },
            }
        }
        self.values = vals;
        self.loose = loose;
        self
    }

    /// Whether parsing `args` would need the name that an undeclared alias
    /// stands for (`hits_dangling`): `parse` is not to be called then.
    pub fn dangling_use(&self, args: &Vec<String>) -> (b: bool)
        ensures
            b == hits_dangling(self@.patterns, strings_view(args@), 0),
    {
        proof {
            use_type_invariant(self);
        }
        let ghost p = self@.patterns;
        let ghost av = strings_view(args@);
        let eq_keys = self.eq_keys();
        let mut i: usize = 0;
        while i < args.len()
            invariant
                self@.patterns == p,
                unique_keys(p),
                av == strings_view(args@),
                i <= args@.len(),
                hits_dangling(p, av, i as int) == hits_dangling(p, av, 0),
                eq_keys@.len() == p.len(),
                forall|j: int| 0 <= j < p.len() ==> (#[trigger] eq_keys@[j])@ == key_eq(p[j].0),
            decreases args@.len() - i,
        {
            assert(av[i as int] == args@[i as int]@);
            proof {
                lemma_pos_bounds(p, av[i as int]);
            }
            match assoc_find(&self.patterns, &args[i]) {
                Some(pi) => {
                    proof {
                        lemma_pos_unique(p, pi as int);
                    }
                    if self.dangling_at(pi) {
                        return true;
                    }
                    let (_k, ct) = self.resolve_at(pi, &args[i]);
                    if ct == CT::Flag {
                        i = i + 1;
                    } else if i + 1 < args.len() {
                        proof {
                            lemma_pos_bounds(p, av[i + 1]);
                        }
                        match assoc_find(&self.patterns, &args[i + 1]) {
                            None => {
                                i = i + 2;
                            },
                            Some(ni) => {
                                assert(p[ni as int].0 == av[i + 1]);
                                i = i + 1;
                            },
                        }
                    } else {
                        i = i + 1;
                    }
                },
                None => {
                    let a = chars_of(args[i].as_str());
                    match first_eq(&eq_keys, &a, Ghost(p)) {
                        Some(j) => {
                            if a.len() > eq_keys[j].len() && self.dangling_at(j) {
                                return true;
                            }
                            i = i + 1;
                        },
                        None => {
                            i = i + 1;
                        },
                    }
                },
            }
        }
        false
    }

    /// Whether the declared entry at `j` is an alias of an undeclared name.
    fn dangling_at(&self, j: usize) -> (b: bool)
        requires
            j < self@.patterns.len(),
            unique_keys(self@.patterns),
        ensures
            b == dangling(self@.patterns, self@.patterns[j as int].0),
    {
        let ghost p = self@.patterns;
        proof {
            lemma_pos_unique(p, j as int);
        }
        if self.patterns[j].1.0 != CT::Alias {
            return false;
        }
        let t = self.patterns[j].1.1.clone();
        proof {
            lemma_pos_bounds(p, t@);
        }
        match assoc_find(&self.patterns, &t) {
            Some(ti) => {
                assert(p[ti as int].0 == t@);
                false
            },
            None => true,
        }
    }

    /// The declared names, each followed by an equals sign.
    fn eq_keys(&self) -> (ks: Vec<Vec<char>>)
        ensures
            ks@.len() == self@.patterns.len(),
            forall|j: int|
                0 <= j < self@.patterns.len() ==> (#[trigger] ks@[j])@ == key_eq(
                    self@.patterns[j].0,
                ),
    {
        let mut ks: Vec<Vec<char>> = Vec::new();
        let mut j: usize = 0;
        while j < self.patterns.len()
            invariant
                j <= self@.patterns.len(),
                ks@.len() == j,
                forall|m: int| 0 <= m < j ==> (#[trigger] ks@[m])@ == key_eq(self@.patterns[m].0),
            decreases self@.patterns.len() - j,
        {
            let mut k = chars_of(self.patterns[j].0.as_str());
            k.push('=');
            ks.push(k);
            j = j + 1;
        }
        ks
    }

    /// Where the argument `name`, which names the declared entry at `idx`,
    /// stores its value, and the kind that decides how it takes one.
    fn resolve_at(&self, idx: usize, name: &String) -> (r: (String, CT))
        requires
            idx < self@.patterns.len(),
        ensures
            (r.0@, r.1) == resolve(self@.patterns, name@, self@.patterns[idx as int].1),
    {
        proof {
            use_type_invariant(self);
        }
        let ghost p = self@.patterns;
        if self.patterns[idx].1.0 == CT::Alias {
            let t = self.patterns[idx].1.1.clone();
            proof {
                lemma_pos_bounds(p, t@);
            }
            match assoc_find(&self.patterns, &t) {
                Some(ti) => {
                    proof {
                        lemma_pos_unique(p, ti as int);
                    }
                    (t, self.patterns[ti].1.0)
                },
                None => (t, CT::Alias),
            }
        } else {
            (name.clone(), self.patterns[idx].1.0)
        }
    }

    /// Whether the option `k` got a value.
    pub fn got(&self, k: &str) -> (b: bool)
        ensures
            b == (assoc_get(self@.values, k@) is Some),
    {
        let key = k.to_string();
        proof {
            lemma_pos_bounds(self@.values, k@);
        }
        match assoc_find(&self.values, &key) {
            Some(i) => {
                assert(self@.values[i as int].0 == k@);
                true
            },
            None => false,
        }
    }

    /// The value that the option `k` got, if any.
    pub fn get(&self, k: &str) -> (r: Option<String>)
        ensures
            opt_view(r) == assoc_get(self@.values, k@),
    {
        proof {
            use_type_invariant(self);
        }
        let key = k.to_string();
        proof {
            lemma_pos_bounds(self@.values, k@);
        }
        match assoc_find(&self.values, &key) {
            Some(i) => {
                proof {
                    lemma_pos_unique(self@.values, i as int);
                }
                Some(self.values[i].1.clone())
            },
            None => None,
        }
    }

    /// The loose argument at position `i`, if there is one.
    pub fn get_loose(&self, i: usize) -> (r: Option<String>)
        ensures
            opt_view(r) == if i < self@.loose.len() {
                Some(self@.loose[i as int])
            } else {
                None
            },
    {
        if i < self.loose.len() {
            Some(self.loose[i].clone())
        } else {
            None
        }
    }

    /// Each option that got a value, with that value; every such option
    /// is a declared name.
    pub fn values(&self) -> (r: Vec<(String, String)>)
        ensures
            values_view(r@) == self@.values,
            keys_registered(self@.patterns, values_view(r@)),
    {
        proof {
            use_type_invariant(self);
        }
        let mut r: Vec<(String, String)> = Vec::new();
        let mut i: usize = 0;
        while i < self.values.len()
            invariant
                i <= self.values@.len(),
                r@.len() == i,
                values_view(r@) == values_view(self.values@).take(i as int),
            decreases self.values@.len() - i,
        {
            let e = (self.values[i].0.clone(), self.values[i].1.clone());
            let ghost prev = r@;
            r.push(e);
            assert(r@ == prev.push(e));
            assert(values_view(r@)[i as int] == values_view(self.values@)[i as int]);
            assert forall|m: int| 0 <= m < i implies #[trigger] values_view(r@)[m] == values_view(prev)[m] by {
                assert(r@[m] == prev[m]);
            }
            i = i + 1;
            assert(values_view(r@) =~= values_view(self.values@).take(i as int));
        }
        assert(values_view(self.values@).take(i as int) =~= values_view(self.values@));
        r
    }

    /// The loose arguments, in order.
    pub fn loose(&self) -> (r: Vec<String>)
        ensures
            strings_view(r@) == self@.loose,
    {
        let mut r: Vec<String> = Vec::new();
        let mut i: usize = 0;
        while i < self.loose.len()
            invariant
                i <= self.loose@.len(),
                r@.len() == i,
                strings_view(r@) == strings_view(self.loose@).take(i as int),
            decreases self.loose@.len() - i,
        {
            let e = self.loose[i].clone();
            let ghost prev = r@;
            r.push(e);
            assert(r@ == prev.push(e));
            assert(strings_view(r@)[i as int] == strings_view(self.loose@)[i as int]);
            assert forall|m: int| 0 <= m < i implies #[trigger] strings_view(r@)[m] == strings_view(prev)[m] by {
                assert(r@[m] == prev[m]);
            }
            i = i + 1;
            assert(strings_view(r@) =~= strings_view(self.loose@).take(i as int));
        }
        assert(strings_view(self.loose@).take(i as int) =~= strings_view(self.loose@));
        r
    }

    /// The number of loose arguments.
    pub fn loose_len(&self) -> (n: usize)
        ensures
            n == self@.loose.len(),
    {
        self.loose.len()
    }

    /// Whether no option got a value and there is no loose argument.
    pub fn is_empty(&self) -> (b: bool)
        ensures
            b == (self@.values.len() == 0 && self@.loose.len() == 0),
    {
        self.values.len() == 0 && self.loose.len() == 0
    }

    fn set_pattern(&mut self, k: String, e: (CT, String))
        ensures
            final(self)@.patterns == assoc_insert(old(self)@.patterns, k@, (e.0, e.1@)),
            final(self)@.values == old(self)@.values,
            final(self)@.loose == old(self)@.loose,
            final(self)@.inv(),
    {
        proof {
            use_type_invariant(&*self);
        }
        let ghost s = self@.patterns;
        let ghost ev = (e.0, e.1@);
        proof {
            lemma_insert(s, k@, ev);
            lemma_pos_bounds(s, k@);
            lemma_registered_grow(s, self@.values, k@, ev);
        }
        let mut vals: Vec<(String, String)> = Vec::new();
        std::mem::swap(&mut vals, &mut self.values);
        let mut pats: Vec<(String, (CT, String))> = Vec::new();
        std::mem::swap(&mut pats, &mut self.patterns);
        match assoc_find(&pats, &k) {
            Some(i) => {
                proof {
                    lemma_pos_unique(s, i as int);
                }
                pats.set(i, (k, e));
                assert(patterns_view(pats@) =~= s.update(i as int, (k@, ev)));
            },
            None => {
                pats.push((k, e));
                assert(patterns_view(pats@) =~= s.push((k@, ev)));
            },
        }
        self.patterns = pats;
        self.values = vals;
    }
}

/// Every option holding a value is declared, and a flag's value is empty.
pub open spec fn values_sound(p: Patterns, vals: Values) -> bool {
    forall|i: int|
        0 <= i < vals.len() ==> (assoc_get(p, (#[trigger] vals[i]).0) matches Some(e) && (e.0
            == CT::Flag ==> vals[i].1.len() == 0))
}

proof fn lemma_sound_insert(p: Patterns, vals: Values, k: Seq<char>, x: Seq<char>)
    requires
        values_sound(p, vals),
        assoc_get(p, k) matches Some(e) && (e.0 == CT::Flag ==> x.len() == 0),
    ensures
        values_sound(p, assoc_insert(vals, k, x)),
{
    lemma_pos_bounds(vals, k);
    let w = assoc_insert(vals, k, x);
    assert forall|i: int| 0 <= i < w.len() implies (assoc_get(p, (#[trigger] w[i]).0) matches Some(
        e,
    ) && (e.0 == CT::Flag ==> w[i].1.len() == 0)) by {
        if i < vals.len() && i != assoc_pos(vals, k) {
            assert(w[i] == vals[i]);
        }
    }
}

/// The name an argument resolves to is declared, with the kind `resolve` reports.
proof fn lemma_resolve_declared(p: Patterns, name: Seq<char>, e: (CT, Seq<char>))
    requires
        unique_keys(p),
        targets_resolve(p),
        assoc_get(p, name) == Some(e),
    ensures
        assoc_get(p, resolve(p, name, e).0) matches Some(f) && f.0 == resolve(p, name, e).1,
{
    lemma_pos_bounds(p, name);
    let i = assoc_pos(p, name);
    assert(p[i].1 == e);
}

proof fn lemma_parse_sound(p: Patterns, vals: Values, loose: Seq<Seq<char>>, args: Seq<Seq<char>>, i: int)
    requires
        unique_keys(p),
        targets_resolve(p),
        values_sound(p, vals),
    ensures
        values_sound(p, parse_from(p, vals, loose, args, i).0),
        is_prefix_of(loose, parse_from(p, vals, loose, args, i).1),
    decreases args.len() - i,
{
    assert(loose.take(loose.len() as int) =~= loose);
    if 0 <= i < args.len() {
        let a = args[i];
        match assoc_get(p, a) {
            Some(e) => {
                let r = resolve(p, a, e);
                lemma_resolve_declared(p, a, e);
                if r.1 == CT::Flag {
                    lemma_sound_insert(p, vals, r.0, Seq::empty());
                    lemma_parse_sound(p, assoc_insert(vals, r.0, Seq::empty()), loose, args, i + 1);
                } else if i + 1 < args.len() && assoc_get(p, args[i + 1]) is None {
                    lemma_sound_insert(p, vals, r.0, args[i + 1]);
                    lemma_parse_sound(p, assoc_insert(vals, r.0, args[i + 1]), loose, args, i + 2);
                } else {
                    lemma_parse_sound(p, vals, loose, args, i + 1);
                }
            },
            None => match first_eq_match(p, a, 0) {
                Some(j) => {
                    lemma_first_eq_bounds(p, a, 0);
                    let z = a.skip(p[j].0.len() + 1int);
                    let r = resolve(p, p[j].0, p[j].1);
                    lemma_pos_unique(p, j);
                    lemma_resolve_declared(p, p[j].0, p[j].1);
                    if z.len() > 0 && r.1 != CT::Flag {
                        lemma_sound_insert(p, vals, r.0, z);
                        lemma_parse_sound(p, assoc_insert(vals, r.0, z), loose, args, i + 1);
                    } else {
                        lemma_parse_sound(p, vals, loose, args, i + 1);
                    }
                },
                None => {
                    lemma_parse_sound(p, vals, loose.push(a), args, i + 1);
                    let res = parse_from(p, vals, loose.push(a), args, i + 1).1;
                    assert(res.take(loose.len() as int) =~= res.take(loose.len() + 1int).take(
                        loose.len() as int,
                    ));
                    assert(loose.push(a).take(loose.len() as int) =~= loose);
                },
            },
        }
    }
}

proof fn lemma_first_eq_bounds(p: Patterns, a: Seq<char>, j: int)
    ensures
        first_eq_match(p, a, j) matches Some(m) ==> 0 <= m < p.len() && j <= m,
    decreases p.len() - j,
{
    if 0 <= j < p.len() {
        lemma_first_eq_bounds(p, a, j + 1);
    }
}

/// Whether `a` is a prefix of `b`.
pub open spec fn is_prefix_of<A>(a: Seq<A>, b: Seq<A>) -> bool {
    a.len() <= b.len() && b.take(a.len() as int) == a
}

/// Parsing keeps the loose arguments found before in front, and adds at
/// most one loose argument for each argument it reads.
proof fn lemma_loose_grows(p: Patterns, vals: Values, loose: Seq<Seq<char>>, args: Seq<Seq<char>>, i: int)
    requires
        0 <= i <= args.len(),
    ensures
        is_prefix_of(loose, parse_from(p, vals, loose, args, i).1),
        parse_from(p, vals, loose, args, i).1.len() <= loose.len() + args.len() - i,
    decreases args.len() - i,
{
    assert(loose.take(loose.len() as int) =~= loose);
    if i < args.len() {
        let a = args[i];
        match assoc_get(p, a) {
            Some(e) => {
                let r = resolve(p, a, e);
                if r.1 == CT::Flag {
                    lemma_loose_grows(p, assoc_insert(vals, r.0, Seq::empty()), loose, args, i + 1);
                } else if i + 1 < args.len() && assoc_get(p, args[i + 1]) is None {
                    lemma_loose_grows(p, assoc_insert(vals, r.0, args[i + 1]), loose, args, i + 2);
                } else {
                    lemma_loose_grows(p, vals, loose, args, i + 1);
                }
            },
            None => match first_eq_match(p, a, 0) {
                Some(j) => {
                    let z = a.skip(p[j].0.len() + 1int);
                    let r = resolve(p, p[j].0, p[j].1);
                    if z.len() > 0 && r.1 != CT::Flag {
                        lemma_loose_grows(p, assoc_insert(vals, r.0, z), loose, args, i + 1);
                    } else {
                        lemma_loose_grows(p, vals, loose, args, i + 1);
                    }
                },
                None => {
                    lemma_loose_grows(p, vals, loose.push(a), args, i + 1);
                    let res = parse_from(p, vals, loose.push(a), args, i + 1).1;
                    assert(res.take(loose.len() as int) =~= res.take(loose.len() + 1int).take(
                        loose.len() as int,
                    ));
                    assert(loose.push(a).take(loose.len() as int) =~= loose);
                },
            },
        }
    }
}

/// Law: parsing only adds to what was there. The options that hold a value
/// are declared names, a flag never holds a value, and the loose arguments
/// found before stay in front of those found now.
pub proof fn law_parse_keeps_values_sound(opts: OptsView, args: Seq<Seq<char>>)
    requires
        opts.inv(),
        opts.aliases_resolve(),
        values_sound(opts.patterns, opts.values),
    ensures
        values_sound(opts.patterns, parse_from(opts.patterns, opts.values, opts.loose, args, 0).0),
        is_prefix_of(opts.loose, parse_from(opts.patterns, opts.values, opts.loose, args, 0).1),
{
    lemma_parse_sound(opts.patterns, opts.values, opts.loose, args, 0);
}

proof fn lemma_alias_same_from(
    p: Patterns,
    vals: Values,
    loose: Seq<Seq<char>>,
    args: Seq<Seq<char>>,
    i: int,
    t: Seq<char>,
    j: int,
)
    requires
        unique_keys(p),
        0 <= i < args.len(),
        assoc_get(p, args[i]) == Some((CT::Alias, t)),
        assoc_get(p, t) matches Some(f) && f.0 != CT::Alias,
    ensures
        parse_from(p, vals, loose, args, j) == parse_from(p, vals, loose, args.update(i, t), j),
    decreases args.len() - j,
{
    let args2 = args.update(i, t);
    if 0 <= j < args.len() {
        let a = args[j];
        match assoc_get(p, a) {
            Some(e) => {
                let r = resolve(p, a, e);
                if r.1 == CT::Flag {
                    lemma_alias_same_from(p, assoc_insert(vals, r.0, Seq::empty()), loose, args, i, t, j + 1);
                } else if j + 1 < args.len() && assoc_get(p, args[j + 1]) is None {
                    lemma_alias_same_from(p, assoc_insert(vals, r.0, args[j + 1]), loose, args, i, t, j + 2);
                } else {
                    lemma_alias_same_from(p, vals, loose, args, i, t, j + 1);
                }
            },
            None => match first_eq_match(p, a, 0) {
                Some(m) => {
                    let z = a.skip(p[m].0.len() + 1int);
                    let r = resolve(p, p[m].0, p[m].1);
                    if z.len() > 0 && r.1 != CT::Flag {
                        lemma_alias_same_from(p, assoc_insert(vals, r.0, z), loose, args, i, t, j + 1);
                    } else {
                        lemma_alias_same_from(p, vals, loose, args, i, t, j + 1);
                    }
                },
                None => {
                    lemma_alias_same_from(p, vals, loose.push(a), args, i, t, j + 1);
                },
            },
        }
    }
}

/// Law: an alias and the option it stands for are interchangeable on the
/// command line. Writing the option's own name in place of its alias, at
/// any position, gives the same values and loose arguments.
pub proof fn law_alias_interchangeable(opts: OptsView, args: Seq<Seq<char>>, i: int)
    requires
        opts.inv(),
        0 <= i < args.len(),
        assoc_get(opts.patterns, args[i]) matches Some(e) && e.0 == CT::Alias && (assoc_get(
            opts.patterns,
            e.1,
        ) matches Some(f) && f.0 != CT::Alias),
    ensures
        parse_from(opts.patterns, opts.values, opts.loose, args, 0) == parse_from(
            opts.patterns,
            opts.values,
            opts.loose,
            args.update(i, assoc_get(opts.patterns, args[i]).unwrap().1),
            0,
        ),
{
    let t = assoc_get(opts.patterns, args[i]).unwrap().1;
    lemma_alias_same_from(opts.patterns, opts.values, opts.loose, args, i, t, 0);
}


/// Parsing from position `j` passes through position `n` when the argument
/// there is a declared name: a declared name is never taken as a value.
proof fn lemma_reaches(p: Patterns, vals: Values, loose: Seq<Seq<char>>, args: Seq<Seq<char>>, j: int, n: int)
    requires
        unique_keys(vals),
        0 <= j <= n < args.len(),
        assoc_get(p, args[n]) is Some,
    ensures
        exists|v2: Values, l2: Seq<Seq<char>>|
            unique_keys(v2) && parse_from(p, vals, loose, args, j) == #[trigger] parse_from(
                p,
                v2,
                l2,
                args,
                n,
            ),
    decreases n - j,
{
    if j == n {
        assert(unique_keys(vals) && parse_from(p, vals, loose, args, j) == parse_from(p, vals, loose, args, n));
    } else {
        let a = args[j];
        match assoc_get(p, a) {
            Some(e) => {
                let r = resolve(p, a, e);
                if r.1 == CT::Flag {
                    lemma_insert(vals, r.0, Seq::empty());
                    lemma_reaches(p, assoc_insert(vals, r.0, Seq::empty()), loose, args, j + 1, n);
                } else if j + 1 < args.len() && assoc_get(p, args[j + 1]) is None {
                    lemma_insert(vals, r.0, args[j + 1]);
                    lemma_reaches(p, assoc_insert(vals, r.0, args[j + 1]), loose, args, j + 2, n);
                } else {
                    lemma_reaches(p, vals, loose, args, j + 1, n);
                }
            },
            None => match first_eq_match(p, a, 0) {
                Some(m) => {
                    let z = a.skip(p[m].0.len() + 1int);
                    let r = resolve(p, p[m].0, p[m].1);
                    if z.len() > 0 && r.1 != CT::Flag {
                        lemma_insert(vals, r.0, z);
                        lemma_reaches(p, assoc_insert(vals, r.0, z), loose, args, j + 1, n);
                    } else {
                        lemma_reaches(p, vals, loose, args, j + 1, n);
                    }
                },
                None => {
                    lemma_reaches(p, vals, loose.push(a), args, j + 1, n);
                },
            },
        }
    }
}

/// Law: the last value given wins. Whatever arguments come first, an
/// option that takes a value (or an alias of one), followed by a value that
/// is not a declared name, leaves the option holding that value.
pub proof fn law_last_value_wins(opts: OptsView, prefix: Seq<Seq<char>>, k: Seq<char>, v: Seq<char>)
    requires
        opts.inv(),
        assoc_get(opts.patterns, k) matches Some(e) && resolve(opts.patterns, k, e).1 == CT::CTString,
        assoc_get(opts.patterns, v) is None,
    ensures
        assoc_get(
            parse_from(opts.patterns, opts.values, opts.loose, prefix + seq![k, v], 0).0,
            resolve(opts.patterns, k, assoc_get(opts.patterns, k).unwrap()).0,
        ) == Some(v),
{
    let p = opts.patterns;
    let args = prefix + seq![k, v];
    let n = prefix.len() as int;
    let e = assoc_get(p, k).unwrap();
    let r = resolve(p, k, e);
    assert(args[n] == k);
    assert(args[n + 1] == v);
    lemma_reaches(p, opts.values, opts.loose, args, 0, n);
    let (v2, l2) = choose|v2: Values, l2: Seq<Seq<char>>|
        unique_keys(v2) && parse_from(p, opts.values, opts.loose, args, 0) == #[trigger] parse_from(
            p,
            v2,
            l2,
            args,
            n,
        );
    lemma_insert(v2, r.0, v);
    assert(parse_from(p, assoc_insert(v2, r.0, v), l2, args, n + 2) == (assoc_insert(v2, r.0, v), l2));
    assert(parse_from(p, v2, l2, args, n) == (assoc_insert(v2, r.0, v), l2));
}


/// No declared name contains '='.
pub open spec fn no_eq_names(p: Patterns) -> bool {
    forall|j: int, c: int| 0 <= j < p.len() && 0 <= c < p[j].0.len() ==> #[trigger] p[j].0[c] != '='
}

/// Under `no_eq_names`, the only declared name whose "name=" begins
/// `key_eq(name) + z` is `name` itself.
proof fn lemma_eq_prefix_unique(p: Patterns, name: Seq<char>, z: Seq<char>, j: int)
    requires
        no_eq_names(p),
        0 <= j < p.len(),
        assoc_get(p, name) is Some,
        is_prefix(key_eq(p[j].0), key_eq(name) + z),
    ensures
        p[j].0 == name,
{
    lemma_pos_bounds(p, name);
    let k = assoc_pos(p, name);
    let a = key_eq(name) + z;
    let n = p[j].0;
    let l = n.len();
    assert(key_eq(n)[l as int] == '=');
    if l < name.len() {
        assert(a[l as int] == name[l as int]);
        assert(p[k].0[l as int] != '=');
        assert(false);
    } else if l > name.len() {
        assert(a[name.len() as int] == '=');
        assert(key_eq(n)[name.len() as int] == n[name.len() as int]);
        assert(p[j].0[name.len() as int] != '=');
        assert(false);
    } else {
        assert forall|c: int| 0 <= c < l implies n[c] == name[c] by {
            assert(key_eq(n)[c] == a[c]);
        }
        assert(n =~= name);
    }
}

/// Under `no_eq_names`, the first declared name whose "name=" begins
/// `key_eq(name) + z` is `name`.
proof fn lemma_first_eq_is(p: Patterns, name: Seq<char>, z: Seq<char>, j: int)
    requires
        no_eq_names(p),
        0 <= j <= assoc_pos(p, name),
        assoc_get(p, name) is Some,
    ensures
        first_eq_match(p, key_eq(name) + z, j) matches Some(m) && 0 <= m < p.len() && p[m].0 == name,
    decreases p.len() - j,
{
    lemma_pos_bounds(p, name);
    let a = key_eq(name) + z;
    if is_prefix(key_eq(p[j].0), a) {
        lemma_eq_prefix_unique(p, name, z, j);
    } else {
        if j == assoc_pos(p, name) {
            assert(key_eq(p[j].0) =~= a.take(key_eq(p[j].0).len() as int));
            assert(false);
        }
        lemma_first_eq_is(p, name, z, j + 1);
    }
}

/// An argument holding '=' is no declared name under `no_eq_names`.
proof fn lemma_not_declared(p: Patterns, a: Seq<char>, c: int)
    requires
        no_eq_names(p),
        0 <= c < a.len(),
        a[c] == '=',
    ensures
        assoc_get(p, a) is None,
{
    lemma_pos_bounds(p, a);
    if assoc_pos(p, a) >= 0 {
        assert(p[assoc_pos(p, a)].0[c] == '=');
    }
}

proof fn lemma_alias_eq_same_from(
    p: Patterns,
    vals: Values,
    loose: Seq<Seq<char>>,
    args: Seq<Seq<char>>,
    i: int,
    alias: Seq<char>,
    t: Seq<char>,
    z: Seq<char>,
    j: int,
)
    requires
        unique_keys(p),
        no_eq_names(p),
        0 <= i < args.len(),
        args[i] == key_eq(alias) + z,
        i == 0 || !(assoc_get(p, args[i - 1]) matches Some(e) && resolve(p, args[i - 1], e).1
            != CT::Flag),
        assoc_get(p, alias) == Some((CT::Alias, t)),
        assoc_get(p, t) matches Some(f) && f.0 != CT::Alias,
    ensures
        parse_from(p, vals, loose, args, j) == parse_from(p, vals, loose, args.update(i, key_eq(t) + z), j),
    decreases args.len() - j,
{
    let args2 = args.update(i, key_eq(t) + z);
    if 0 <= j < args.len() {
        if j == i {
            lemma_not_declared(p, args[i], alias.len() as int);
            lemma_not_declared(p, args2[i], t.len() as int);
            lemma_pos_bounds(p, alias);
            lemma_pos_bounds(p, t);
            lemma_first_eq_is(p, alias, z, 0);
            lemma_first_eq_is(p, t, z, 0);
            let ma = first_eq_match(p, args[i], 0).unwrap();
            let mt = first_eq_match(p, args2[i], 0).unwrap();
            lemma_pos_unique(p, ma);
            lemma_pos_unique(p, mt);
            assert(args[i].skip(p[ma].0.len() + 1int) =~= z);
            assert(args2[i].skip(p[mt].0.len() + 1int) =~= z);
            let r = resolve(p, p[ma].0, p[ma].1);
            assert(p[ma].0 == alias && p[mt].0 == t);
            assert(p[ma].1 == (CT::Alias, t));
            assert(r == resolve(p, p[mt].0, p[mt].1));
            assert(assoc_get(p, args[i]) is None);
            assert(assoc_get(p, args2[i]) is None);
            let vals2 = if z.len() > 0 && r.1 != CT::Flag {
                assoc_insert(vals, r.0, z)
            } else {
                vals
            };
            lemma_alias_eq_same_from(p, vals2, loose, args, i, alias, t, z, j + 1);
            assert(parse_from(p, vals, loose, args, j) == parse_from(p, vals2, loose, args, j + 1));
            assert(parse_from(p, vals, loose, args2, j) == parse_from(p, vals2, loose, args2, j + 1));
        } else {
            let a = args[j];
            assert(args2[j] == a);
            if j + 1 < args.len() && j + 1 != i {
                assert(args2[j + 1] == args[j + 1]);
            }
            if j + 1 == i {
                lemma_not_declared(p, args[i], alias.len() as int);
                lemma_not_declared(p, args2[i], t.len() as int);
            }
            match assoc_get(p, a) {
                Some(e) => {
                    let r = resolve(p, a, e);
                    if r.1 == CT::Flag {
                        lemma_alias_eq_same_from(p, assoc_insert(vals, r.0, Seq::empty()), loose, args, i, alias, t, z, j + 1);
                    } else if j + 1 < args.len() && assoc_get(p, args[j + 1]) is None {
                        lemma_alias_eq_same_from(p, assoc_insert(vals, r.0, args[j + 1]), loose, args, i, alias, t, z, j + 2);
                    } else {
                        lemma_alias_eq_same_from(p, vals, loose, args, i, alias, t, z, j + 1);
                    }
                },
                None => match first_eq_match(p, a, 0) {
                    Some(m) => {
                        let zz = a.skip(p[m].0.len() + 1int);
                        let r = resolve(p, p[m].0, p[m].1);
                        if zz.len() > 0 && r.1 != CT::Flag {
                            lemma_alias_eq_same_from(p, assoc_insert(vals, r.0, zz), loose, args, i, alias, t, z, j + 1);
                        } else {
                            lemma_alias_eq_same_from(p, vals, loose, args, i, alias, t, z, j + 1);
                        }
                    },
                    None => {
                        lemma_alias_eq_same_from(p, vals, loose.push(a), args, i, alias, t, z, j + 1);
                    },
                },
            }
        }
    }
}

/// Law: an alias given with its value after '=' and the option it stands
/// for given the same way are interchangeable, when no declared name holds
/// '=': writing `name=value` in place of `alias=value` gives the same
/// values and loose arguments, wherever it stands except right after an
/// option that takes a value (which takes it as its value, as written).
pub proof fn law_alias_with_value_interchangeable(
    opts: OptsView,
    args: Seq<Seq<char>>,
    i: int,
    alias: Seq<char>,
    z: Seq<char>,
)
    requires
        opts.inv(),
        no_eq_names(opts.patterns),
        0 <= i < args.len(),
        args[i] == key_eq(alias) + z,
        i == 0 || !(assoc_get(opts.patterns, args[i - 1]) matches Some(e) && resolve(
            opts.patterns,
            args[i - 1],
            e,
        ).1 != CT::Flag),
        assoc_get(opts.patterns, alias) matches Some(e) && e.0 == CT::Alias && (assoc_get(
            opts.patterns,
            e.1,
        ) matches Some(f) && f.0 != CT::Alias),
    ensures
        parse_from(opts.patterns, opts.values, opts.loose, args, 0) == parse_from(
            opts.patterns,
            opts.values,
            opts.loose,
            args.update(i, key_eq(assoc_get(opts.patterns, alias).unwrap().1) + z),
            0,
        ),
{
    let t = assoc_get(opts.patterns, alias).unwrap().1;
    lemma_alias_eq_same_from(opts.patterns, opts.values, opts.loose, args, i, alias, t, z, 0);
}


/// Position `i` of `args` follows an option that takes a value, so parsing
/// takes the argument there as that value unless it is a declared name.
pub open spec fn value_position(p: Patterns, args: Seq<Seq<char>>, i: int) -> bool {
    i > 0 && (assoc_get(p, args[i - 1]) matches Some(e) && resolve(p, args[i - 1], e).1 != CT::Flag)
}

/// Argument `i` with the alias `alias` written as the name `t` it stands
/// for: the alias alone, or the alias followed by '=' and a value where the
/// argument is not taken as a value.
pub open spec fn swapped_arg(p: Patterns, args: Seq<Seq<char>>, i: int, alias: Seq<char>, t: Seq<char>) -> Seq<char> {
    let a = args[i];
    if a == alias {
        t
    } else if is_prefix(key_eq(alias), a) && !value_position(p, args, i) {
        key_eq(t) + a.skip(alias.len() + 1int)
    } else {
        a
    }
}

/// `args` with the alias `alias` written as `t` wherever it is read as an
/// option.
pub open spec fn swap_alias(p: Patterns, args: Seq<Seq<char>>, alias: Seq<char>, t: Seq<char>) -> Seq<Seq<char>> {
    Seq::new(args.len(), |i: int| swapped_arg(p, args, i, alias, t))
}

proof fn lemma_swap_declared(p: Patterns, args: Seq<Seq<char>>, alias: Seq<char>, t: Seq<char>, k: int)
    requires
        unique_keys(p),
        no_eq_names(p),
        0 <= k < args.len(),
        assoc_get(p, alias) == Some((CT::Alias, t)),
        assoc_get(p, t) matches Some(f) && f.0 != CT::Alias,
    ensures
        (assoc_get(p, args[k]) is None) == (assoc_get(p, swap_alias(p, args, alias, t)[k]) is None),
        assoc_get(p, args[k]) is None && value_position(p, args, k) ==> swap_alias(p, args, alias, t)[k]
            == args[k],
{
    let a = args[k];
    let b = swap_alias(p, args, alias, t)[k];
    if a != alias && is_prefix(key_eq(alias), a) {
        assert(key_eq(alias)[alias.len() as int] == '=');
        assert(a.take(key_eq(alias).len() as int)[alias.len() as int] == a[alias.len() as int]);
        lemma_not_declared(p, a, alias.len() as int);
        if !value_position(p, args, k) {
            assert(b[t.len() as int] == '=');
            lemma_not_declared(p, b, t.len() as int);
        }
    }
}

proof fn lemma_swap_same_from(
    p: Patterns,
    vals: Values,
    loose: Seq<Seq<char>>,
    args: Seq<Seq<char>>,
    alias: Seq<char>,
    t: Seq<char>,
    j: int,
)
    requires
        unique_keys(p),
        no_eq_names(p),
        0 <= j,
        assoc_get(p, alias) == Some((CT::Alias, t)),
        assoc_get(p, t) matches Some(f) && f.0 != CT::Alias,
    ensures
        parse_from(p, vals, loose, args, j) == parse_from(p, vals, loose, swap_alias(p, args, alias, t), j),
    decreases args.len() - j,
{
    let args2 = swap_alias(p, args, alias, t);
    if j < args.len() {
        let a = args[j];
        let b = args2[j];
        lemma_swap_declared(p, args, alias, t, j);
        if j + 1 < args.len() {
            lemma_swap_declared(p, args, alias, t, j + 1);
        }
        lemma_pos_bounds(p, alias);
        lemma_pos_bounds(p, t);
        if a == alias {
            assert(b == t);
            let r = resolve(p, a, (CT::Alias, t));
            assert(r == resolve(p, b, assoc_get(p, t).unwrap()));
            if r.1 == CT::Flag {
                lemma_swap_same_from(p, assoc_insert(vals, r.0, Seq::empty()), loose, args, alias, t, j + 1);
            } else if j + 1 < args.len() && assoc_get(p, args[j + 1]) is None {
                assert(value_position(p, args, j + 1));
                lemma_swap_same_from(p, assoc_insert(vals, r.0, args[j + 1]), loose, args, alias, t, j + 2);
            } else {
                lemma_swap_same_from(p, vals, loose, args, alias, t, j + 1);
            }
        } else if is_prefix(key_eq(alias), a) && !value_position(p, args, j) {
            let z = a.skip(alias.len() + 1int);
            assert(a =~= key_eq(alias) + z);
            lemma_not_declared(p, a, alias.len() as int);
            lemma_not_declared(p, b, t.len() as int);
            lemma_first_eq_is(p, alias, z, 0);
            lemma_first_eq_is(p, t, z, 0);
            let ma = first_eq_match(p, a, 0).unwrap();
            let mt = first_eq_match(p, b, 0).unwrap();
            lemma_pos_unique(p, ma);
            lemma_pos_unique(p, mt);
            assert(a.skip(p[ma].0.len() + 1int) =~= z);
            assert(b.skip(p[mt].0.len() + 1int) =~= z);
            let r = resolve(p, p[ma].0, p[ma].1);
            assert(r == resolve(p, p[mt].0, p[mt].1));
            let vals2 = if z.len() > 0 && r.1 != CT::Flag {
                assoc_insert(vals, r.0, z)
            } else {
                vals
            };
            lemma_swap_same_from(p, vals2, loose, args, alias, t, j + 1);
            assert(parse_from(p, vals, loose, args, j) == parse_from(p, vals2, loose, args, j + 1));
            assert(parse_from(p, vals, loose, args2, j) == parse_from(p, vals2, loose, args2, j + 1));
        } else {
            assert(b == a);
            match assoc_get(p, a) {
                Some(e) => {
                    let r = resolve(p, a, e);
                    if r.1 == CT::Flag {
                        lemma_swap_same_from(p, assoc_insert(vals, r.0, Seq::empty()), loose, args, alias, t, j + 1);
                    } else if j + 1 < args.len() && assoc_get(p, args[j + 1]) is None {
                        assert(value_position(p, args, j + 1));
                        lemma_swap_same_from(p, assoc_insert(vals, r.0, args[j + 1]), loose, args, alias, t, j + 2);
                    } else {
                        lemma_swap_same_from(p, vals, loose, args, alias, t, j + 1);
                    }
                },
                None => match first_eq_match(p, a, 0) {
                    Some(m) => {
                        let zz = a.skip(p[m].0.len() + 1int);
                        let r = resolve(p, p[m].0, p[m].1);
                        if zz.len() > 0 && r.1 != CT::Flag {
                            lemma_swap_same_from(p, assoc_insert(vals, r.0, zz), loose, args, alias, t, j + 1);
                        } else {
                            lemma_swap_same_from(p, vals, loose, args, alias, t, j + 1);
                        }
                    },
                    None => {
                        lemma_swap_same_from(p, vals, loose.push(a), args, alias, t, j + 1);
                    },
                },
            }
        }
    }
}

/// Law: once `alias` is declared for an option that is no alias, and no
/// declared name holds '=', writing the option's own name for the alias
/// wherever the alias is read as an option (alone, or followed by '=' and
/// a value where the argument is not taken as a value) gives the same
/// values and loose arguments.
pub proof fn law_alias_everywhere_interchangeable(opts: OptsView, args: Seq<Seq<char>>, alias: Seq<char>)
    requires
        opts.inv(),
        no_eq_names(opts.patterns),
        assoc_get(opts.patterns, alias) matches Some(e) && e.0 == CT::Alias && (assoc_get(
            opts.patterns,
            e.1,
        ) matches Some(f) && f.0 != CT::Alias),
    ensures
        parse_from(opts.patterns, opts.values, opts.loose, args, 0) == parse_from(
            opts.patterns,
            opts.values,
            opts.loose,
            swap_alias(opts.patterns, args, alias, assoc_get(opts.patterns, alias).unwrap().1),
            0,
        ),
{
    let t = assoc_get(opts.patterns, alias).unwrap().1;
    lemma_swap_same_from(opts.patterns, opts.values, opts.loose, args, alias, t, 0);
}

} // verus!
