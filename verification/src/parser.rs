use vstd::prelude::*;

use crate::blocks::section::{SectionNumber, next_section_number};
use crate::text::{chars_to_string, decimal, digit_char, push_decimal, push_str, str_eq};
use vstd::relations::injective_on;
use vstd::set_lib::{lemma_int_range, lemma_len_subset, lemma_map_size, set_int_range};

verus! {

/// The kind of a reference registered in the catalog.
#[derive(Clone, Copy, Debug, PartialEq, Eq, Structural)]
pub enum RefType {
    Anchor,
    Section,
}

struct AttrEntry {
    name: String,
    value: Option<String>,
}

struct CatalogEntry {
    id: String,
    reftext: Option<String>,
    ref_type: RefType,
}

/// The model of a [`Parser`].
pub struct ParserView {
    /// Document attributes, in the order they were first defined; `None`
    /// marks an attribute that was explicitly unset.
    pub attributes: Seq<(Seq<char>, Option<Seq<char>>)>,
    /// The catalog of registered IDs: id, reference text and kind.
    pub catalog: Seq<(Seq<char>, Option<Seq<char>>, RefType)>,
    /// The most recently assigned section number.
    pub section_number: Seq<usize>,
    pub sectnumlevels: int,
}

/// The value of the first entry for `name`.
pub open spec fn attr_lookup(
    attrs: Seq<(Seq<char>, Option<Seq<char>>)>,
    name: Seq<char>,
) -> Option<Seq<char>>
    decreases attrs.len(),
{
    if attrs.len() == 0 {
        None
    } else if attrs[0].0 == name {
        attrs[0].1
    } else {
        attr_lookup(attrs.drop_first(), name)
    }
}

/// The index of the first entry for `name`, if any.
pub open spec fn attr_index(attrs: Seq<(Seq<char>, Option<Seq<char>>)>, name: Seq<char>) -> Option<
    int,
>
    decreases attrs.len(),
{
    if attrs.len() == 0 {
        None
    } else if attrs[0].0 == name {
        Some(0)
    } else {
        match attr_index(attrs.drop_first(), name) {
            Some(i) => Some(i + 1),
            None => None,
        }
    }
}

/// The attributes once `name` is given `value`.
pub open spec fn attr_set(
    attrs: Seq<(Seq<char>, Option<Seq<char>>)>,
    name: Seq<char>,
    value: Option<Seq<char>>,
) -> Seq<(Seq<char>, Option<Seq<char>>)> {
    match attr_index(attrs, name) {
        Some(i) => attrs.update(i, (name, value)),
        None => attrs.push((name, value)),
    }
}

/// `id` is registered in the catalog.
pub open spec fn catalog_has(catalog: Seq<(Seq<char>, Option<Seq<char>>, RefType)>, id: Seq<char>) -> bool {
    exists|i: int| 0 <= i < catalog.len() && (#[trigger] catalog[i]).0 == id
}

/// No ID is registered twice.
pub open spec fn ids_distinct(catalog: Seq<(Seq<char>, Option<Seq<char>>, RefType)>) -> bool {
    forall|i: int, j: int| 0 <= i < j < catalog.len() ==> #[trigger] catalog[i].0 != #[trigger] catalog[j].0
}

/// `base` followed by the separator `_` and the decimal number `n`.
pub open spec fn numbered_id(base: Seq<char>, n: nat) -> Seq<char> {
    base.push('_') + decimal(n)
}

/// The first free candidate id: `base`, else `base_n` for the least
/// `n` in `from..limit` that is free, else `base_limit`.
pub open spec fn first_free_numbered(
    catalog: Seq<(Seq<char>, Option<Seq<char>>, RefType)>,
    base: Seq<char>,
    from: nat,
    limit: nat,
) -> Seq<char>
    decreases limit - from,
{
    if from >= limit || !catalog_has(catalog, numbered_id(base, from)) {
        numbered_id(base, from)
    } else {
        first_free_numbered(catalog, base, from + 1, limit)
    }
}

pub open spec fn unique_id(catalog: Seq<(Seq<char>, Option<Seq<char>>, RefType)>, base: Seq<char>) -> Seq<
    char,
> {
    if !catalog_has(catalog, base) {
        base
    } else {
        first_free_numbered(catalog, base, 2, catalog.len() + 2)
    }
}

proof fn lemma_digit_char_injective(a: nat, b: nat)
    requires
        a < 10,
        b < 10,
        digit_char(a) == digit_char(b),
    ensures
        a == b,
{
}

proof fn lemma_decimal_len(n: nat)
    ensures
        decimal(n).len() >= 1,
        n >= 10 ==> decimal(n).len() >= 2,
    decreases n,
{
    if n >= 10 {
        lemma_decimal_len(n / 10);
    }
}

/// Different numbers are written differently.
proof fn lemma_decimal_injective(n: nat, m: nat)
    requires
        decimal(n) == decimal(m),
    ensures
        n == m,
    decreases n,
{
    lemma_decimal_len(n);
    lemma_decimal_len(m);
    if n < 10 && m < 10 {
        assert(decimal(n)[0] == digit_char(n));
        assert(decimal(m)[0] == digit_char(m));
        lemma_digit_char_injective(n, m);
    } else if n >= 10 && m >= 10 {
        let dn = decimal(n);
        let dm = decimal(m);
        assert(dn.last() == dm.last());
        lemma_digit_char_injective(n % 10, m % 10);
        assert(dn.drop_last() =~= decimal(n / 10));
        assert(dm.drop_last() =~= decimal(m / 10));
        lemma_decimal_injective(n / 10, m / 10);
    }
}

proof fn lemma_numbered_id_injective(base: Seq<char>, n: nat, m: nat)
    requires
        numbered_id(base, n) == numbered_id(base, m),
    ensures
        n == m,
{
    let k: int = base.len() as int + 1;
    assert(numbered_id(base, n).skip(k) =~= decimal(n));
    assert(numbered_id(base, m).skip(k) =~= decimal(m));
    lemma_decimal_injective(n, m);
}

/// Where a free candidate lies between `from` and `limit`, the search finds
/// a free one.
proof fn lemma_first_free_numbered(
    catalog: Seq<(Seq<char>, Option<Seq<char>>, RefType)>,
    base: Seq<char>,
    from: nat,
    limit: nat,
    w: nat,
)
    requires
        from <= w < limit,
        !catalog_has(catalog, numbered_id(base, w)),
    ensures
        !catalog_has(catalog, first_free_numbered(catalog, base, from, limit)),
    decreases limit - from,
{
    if catalog_has(catalog, numbered_id(base, from)) {
        lemma_first_free_numbered(catalog, base, from + 1, limit, w);
    }
}

/// A generated ID is never one that is already registered: of `base` and
/// the candidates `base_2` to `base_n` (with `n` one more than the number
/// of registered IDs), at least one is free, and the first free one is
/// picked.
pub proof fn lemma_unique_id_is_free(catalog: Seq<(Seq<char>, Option<Seq<char>>, RefType)>, base: Seq<char>)
    ensures
        !catalog_has(catalog, unique_id(catalog, base)),
{
    if catalog_has(catalog, base) {
        let n: int = catalog.len() as int;
        let f = |i: int| numbered_id(base, i as nat);
        let range = set_int_range(2, n + 2);
        let cands = range.map(f);
        let ids = catalog.map_values(|e: (Seq<char>, Option<Seq<char>>, RefType)| e.0).to_set();
        if forall|i: int| 2 <= i < n + 2 ==> catalog_has(catalog, #[trigger] numbered_id(base, i as nat)) {
            lemma_int_range(2, n + 2);
            assert(injective_on(f, range)) by {
                assert forall|x1: int, x2: int|
                    range.contains(x1) && range.contains(x2) && #[trigger] f(x1) == #[trigger] f(x2) implies x1
                    == x2 by {
                    lemma_numbered_id_injective(base, x1 as nat, x2 as nat);
                }
            }
            lemma_map_size(range, cands, f);
            assert(!cands.contains(base)) by {
                if cands.contains(base) {
                    let i: int = choose|i: int| range.contains(i) && f(i) == base;
                    assert(numbered_id(base, i as nat).len() > base.len());
                }
            }
            let all = cands.insert(base);
            assert(all.len() == n + 1);
            assert(all.subset_of(ids)) by {
                assert forall|x: Seq<char>| all.contains(x) implies ids.contains(x) by {
                    let x2 = x;
                    if x2 == base {
                        let j: int = choose|j: int| 0 <= j < catalog.len() && (#[trigger] catalog[j]).0 == base;
                        assert(catalog.map_values(|e: (Seq<char>, Option<Seq<char>>, RefType)| e.0)[j] == x2);
                    } else {
                        let i: int = choose|i: int| range.contains(i) && f(i) == x2;
                        assert(catalog_has(catalog, numbered_id(base, i as nat)));
                        let j: int = choose|j: int|
                            0 <= j < catalog.len() && (#[trigger] catalog[j]).0 == numbered_id(base, i as nat);
                        assert(catalog.map_values(|e: (Seq<char>, Option<Seq<char>>, RefType)| e.0)[j] == x2);
                    }
                }
            }
            catalog.map_values(|e: (Seq<char>, Option<Seq<char>>, RefType)| e.0).lemma_cardinality_of_set();
            lemma_len_subset(all, ids);
            assert(false);
        }
        let w: int = choose|i: int| 2 <= i < n + 2 && !catalog_has(catalog, #[trigger] numbered_id(base, i as nat));
        lemma_first_free_numbered(catalog, base, 2, (n + 2) as nat, w as nat);
    }
}

pub open spec fn default_attributes() -> Seq<(Seq<char>, Option<Seq<char>>)> {
    seq![
        ("sectids"@, Some(""@)),
        ("idprefix"@, Some("_"@)),
        ("idseparator"@, Some("_"@)),
        ("empty"@, Some(""@)),
        ("sp"@, Some(" "@)),
    ]
}

/// The state that persists across the parsing of a document: document
/// attributes, the catalog of IDs and section numbering.
pub struct Parser {
    attributes: Vec<AttrEntry>,
    catalog: Vec<CatalogEntry>,
    section_number: SectionNumber,
    sectnumlevels: usize,
}

impl View for Parser {
    type V = ParserView;

    closed spec fn view(&self) -> ParserView {
        ParserView {
            attributes: Seq::new(
                self.attributes@.len(),
                |i: int|
                    (
                        self.attributes@[i].name@,
                        match self.attributes@[i].value {
                            Some(v) => Some(v@),
                            None => None,
                        },
                    ),
            ),
            catalog: Seq::new(
                self.catalog@.len(),
                |i: int|
                    (
                        self.catalog@[i].id@,
                        match self.catalog@[i].reftext {
                            Some(v) => Some(v@),
                            None => None,
                        },
                        self.catalog@[i].ref_type,
                    ),
            ),
            section_number: self.section_number@,
            sectnumlevels: self.sectnumlevels as int,
        }
    }
}

fn entry(name: &str, value: &str) -> (r: AttrEntry)
    ensures
        r.name@ == name@,
        r.value matches Some(v) && v@ == value@,
{
    AttrEntry { name: name.to_owned(), value: Some(value.to_owned()) }
}

fn clone_opt_string(s: &Option<String>) -> (r: Option<String>)
    ensures
        r == *s,
{
    match s {
        Some(v) => Some(v.clone()),
        None => None,
    }
}

impl Default for Parser {
    fn default() -> (r: Parser)
        ensures
            r@.attributes == default_attributes(),
            r@.catalog == Seq::<(Seq<char>, Option<Seq<char>>, RefType)>::empty(),
            r@.section_number == Seq::<usize>::empty(),
            r@.sectnumlevels == 3,
    {
        let mut attributes: Vec<AttrEntry> = Vec::new();
        attributes.push(entry("sectids", ""));
        attributes.push(entry("idprefix", "_"));
        attributes.push(entry("idseparator", "_"));
        attributes.push(entry("empty", ""));
        attributes.push(entry("sp", " "));
        let r = Parser {
            attributes,
            catalog: Vec::new(),
            section_number: SectionNumber::new(),
            sectnumlevels: 3,
        };
        assert(r@.attributes =~= default_attributes());
        assert(r@.catalog =~= Seq::<(Seq<char>, Option<Seq<char>>, RefType)>::empty());
        r
    }
}

impl Parser {
    /// An identical copy of this parser's state.
    pub fn copy(&self) -> (r: Parser)
        ensures
            r@ == self@,
    {
        let mut attributes: Vec<AttrEntry> = Vec::new();
        let mut i: usize = 0;
        while i < self.attributes.len()
            invariant
                i <= self.attributes@.len(),
                attributes@.len() == i,
                forall|j: int| 0 <= j < i ==> #[trigger] attributes@[j] == self.attributes@[j],
            decreases self.attributes@.len() - i,
        {
            let e = &self.attributes[i];
            attributes.push(AttrEntry { name: e.name.clone(), value: clone_opt_string(&e.value) });
            i = i + 1;
        }
        let mut catalog: Vec<CatalogEntry> = Vec::new();
        let mut k: usize = 0;
        while k < self.catalog.len()
            invariant
                k <= self.catalog@.len(),
                catalog@.len() == k,
                forall|j: int| 0 <= j < k ==> #[trigger] catalog@[j] == self.catalog@[j],
            decreases self.catalog@.len() - k,
        {
            let e = &self.catalog[k];
            catalog.push(CatalogEntry { id: e.id.clone(), reftext: clone_opt_string(&e.reftext), ref_type: e.ref_type });
            k = k + 1;
        }
        let r = Parser {
            attributes,
            catalog,
            section_number: self.section_number.copy(),
            sectnumlevels: self.sectnumlevels,
        };
        assert(r@.attributes =~= self@.attributes);
        assert(r@.catalog =~= self@.catalog);
        r
    }

    /// value.
    pub fn sectnumlevels(&self) -> (r: usize)
        ensures
            r == self@.sectnumlevels,
    {
        self.sectnumlevels
    }

    /// Index of the first attribute entry named `name`.
    fn find_attribute(&self, name: &str) -> (r: Option<usize>)
        ensures
            r matches Some(i) ==> attr_index(self@.attributes, name@) == Some(i as int),
            r is None ==> attr_index(self@.attributes, name@) is None,
            r matches Some(i) ==> i < self@.attributes.len() && self@.attributes[i as int].0
                == name@,
    {
        let n = self.attributes.len();
        let mut i: usize = 0;
        while i < n
            invariant
                n == self.attributes@.len(),
                i <= n,
                forall|j: int| 0 <= j < i ==> self@.attributes[j].0 != name@,
            decreases n - i,
        {
            if str_eq(self.attributes[i].name.as_str(), name) {
                proof {
                    lemma_attr_index_at(self@.attributes, name@, i as int);
                }
                return Some(i);
            }
            i = i + 1;
        }
        proof {
            lemma_attr_index_none(self@.attributes, name@);
        }
        None
    }

    /// Returns the value of the document attribute `name`, if it is set.
    pub fn attribute_value(&self, name: &str) -> (r: Option<&str>)
        ensures
            r is Some == attr_lookup(self@.attributes, name@) is Some,
            r matches Some(v) ==> attr_lookup(self@.attributes, name@) == Some(v@),
    {
        proof {
            lemma_attr_lookup_index(self@.attributes, name@);
        }
        match self.find_attribute(name) {
            Some(i) => {
                let ghost e = self.attributes@[i as int];
                assert(attr_index(self@.attributes, name@) == Some(i as int));
                assert(attr_lookup(self@.attributes, name@) == self@.attributes[i as int].1);
                assert(self@.attributes[i as int].1 == match e.value {
                    Some(v) => Some(v@),
                    None => None,
                });
                match &self.attributes[i].value {
                    Some(v) => Some(v.as_str()),
                    None => None,
                }
            },
            None => None,
        }
    }

    /// Returns `true` if the document attribute `name` is set.
    pub fn is_attribute_set(&self, name: &str) -> (r: bool)
        ensures
            r == attr_lookup(self@.attributes, name@) is Some,
    {
        self.attribute_value(name).is_some()
    }

    /// Sets (`Some`) or unsets (`None`) the document attribute `name`.
    pub fn set_attribute(&mut self, name: &str, value: Option<&str>)
        ensures
            final(self)@.attributes == attr_set(
                old(self)@.attributes,
                name@,
                match value {
                    Some(v) => Some(v@),
                    None => None,
                },
            ),
            final(self)@.catalog == old(self)@.catalog,
            final(self)@.section_number == old(self)@.section_number,
            final(self)@.sectnumlevels == old(self)@.sectnumlevels,
    {
        let new_value = match value {
            Some(v) => Some(v.to_owned()),
            None => None,
        };
        let e = AttrEntry { name: name.to_owned(), value: new_value };
        let ghost nv = match value {
            Some(v) => Some(v@),
            None => None,
        };
        let ghost old_attrs = self.attributes@;
        match self.find_attribute(name) {
            Some(i) => {
                self.attributes.set(i, e);
                assert forall|j: int| 0 <= j < self@.attributes.len() implies self@.attributes[j]
                    == old(self)@.attributes.update(i as int, (name@, nv))[j] by {
                    if j != i {
                        assert(self.attributes@[j] == old_attrs[j]);
                    }
                }
            },
            None => {
                self.attributes.push(e);
                assert forall|j: int| 0 <= j < self@.attributes.len() implies self@.attributes[j]
                    == old(self)@.attributes.push((name@, nv))[j] by {
                    if j < old_attrs.len() {
                        assert(self.attributes@[j] == old_attrs[j]);
                    }
                }
            },
        }
        proof {
            assert(self@.attributes =~= attr_set(old(self)@.attributes, name@, nv));
            assert(self@.catalog =~= old(self)@.catalog);
        }
    }

    /// Returns `true` if `id` is registered in the catalog.
    pub fn has_ref(&self, id: &str) -> (r: bool)
        ensures
            r == catalog_has(self@.catalog, id@),
    {
        let n = self.catalog.len();
        let mut i: usize = 0;
        while i < n
            invariant
                n == self.catalog@.len(),
                i <= n,
                forall|j: int| 0 <= j < i ==> self@.catalog[j].0 != id@,
            decreases n - i,
        {
            if str_eq(self.catalog[i].id.as_str(), id) {
                assert(self@.catalog[i as int].0 == id@);
                return true;
            }
            i = i + 1;
        }
        false
    }

    /// Registers `id` in the catalog. Returns `false`, and changes nothing, if
    /// `id` is already registered.
    pub fn register_ref(&mut self, id: &str, reftext: Option<&str>, ref_type: RefType) -> (r: bool)
        ensures
            r == !catalog_has(old(self)@.catalog, id@),
            r ==> final(self)@.catalog == old(self)@.catalog.push(
                (
                    id@,
                    match reftext {
                        Some(t) => Some(t@),
                        None => None,
                    },
                    ref_type,
                ),
            ),
            !r ==> final(self)@.catalog == old(self)@.catalog,
            ids_distinct(old(self)@.catalog) ==> ids_distinct(final(self)@.catalog),
            final(self)@.attributes == old(self)@.attributes,
            final(self)@.section_number == old(self)@.section_number,
            final(self)@.sectnumlevels == old(self)@.sectnumlevels,
    {
        if self.has_ref(id) {
            return false;
        }
        let stored = match reftext {
            Some(t) => Some(t.to_owned()),
            None => None,
        };
        self.catalog.push(CatalogEntry { id: id.to_owned(), reftext: stored, ref_type });
        assert(self@.attributes =~= old(self)@.attributes);
        assert(self@.catalog =~= old(self)@.catalog.push(
            (
                id@,
                match reftext {
                    Some(t) => Some(t@),
                    None => None,
                },
                ref_type,
            ),
        ));
        true
    }

    /// Picks an ID based on `base` that is not yet in the catalog (`base`
    /// itself, else `base_2`, `base_3`, ...) and registers it.
    pub fn generate_and_register_unique_id(
        &mut self,
        base: &str,
        reftext: Option<&str>,
        ref_type: RefType,
    ) -> (r: String)
        requires
            old(self)@.catalog.len() + 3 <= usize::MAX,
        ensures
            r@ == unique_id(old(self)@.catalog, base@),
            final(self)@.attributes == old(self)@.attributes,
            final(self)@.section_number == old(self)@.section_number,
            final(self)@.sectnumlevels == old(self)@.sectnumlevels,
            !catalog_has(old(self)@.catalog, r@),
            ids_distinct(old(self)@.catalog) ==> ids_distinct(final(self)@.catalog),
            final(self)@.catalog == old(self)@.catalog.push(
                (
                    r@,
                    match reftext {
                        Some(t) => Some(t@),
                        None => None,
                    },
                    ref_type,
                ),
            ),
    {
        proof {
            lemma_unique_id_is_free(self@.catalog, base@);
        }
        let candidate = if !self.has_ref(base) {
            base.to_owned()
        } else {
            let limit = self.catalog.len() + 2;
            let mut n: usize = 2;
            let mut found: Vec<char> = Vec::new();
            let mut done = false;
            while !done
                invariant
                    limit == self@.catalog.len() + 2,
                    2 <= n <= limit,
                    self@.catalog.len() + 3 <= usize::MAX,
                    catalog_has(self@.catalog, base@),
                    !done ==> first_free_numbered(self@.catalog, base@, 2, limit as nat)
                        == first_free_numbered(self@.catalog, base@, n as nat, limit as nat),
                    done ==> found@ == first_free_numbered(self@.catalog, base@, 2, limit as nat),
                decreases limit - n + (if done {
                    0int
                } else {
                    1int
                }),
            {
                let mut c: Vec<char> = Vec::new();
                push_str(&mut c, base);
                c.push('_');
                push_decimal(&mut c, n);
                let s = chars_to_string(&c);
                proof {
                    assert(c@ =~= numbered_id(base@, n as nat));
                }
                if n >= limit || !self.has_ref(s.as_str()) {
                    found = c;
                    done = true;
                } else {
                    n = n + 1;
                }
            }
            chars_to_string(&found)
        };
        self.register_ref(candidate.as_str(), reftext, ref_type);
        candidate
    }

    /// Returns the reference text registered for `id` (`Some(None)` if `id`
    /// is registered without one), or `None` if `id` is not registered.
    pub fn reftext(&self, id: &str) -> (r: Option<Option<&str>>)
        ensures
            r is None == !catalog_has(self@.catalog, id@),
            r matches Some(t) ==> exists|i: int|
                0 <= i < self@.catalog.len() && (#[trigger] self@.catalog[i]).0 == id@
                    && self@.catalog[i].1 == match t {
                    Some(v) => Some(v@),
                    None => None,
                },
    {
        let n = self.catalog.len();
        let mut i: usize = 0;
        while i < n
            invariant
                n == self.catalog@.len(),
                i <= n,
                forall|j: int| 0 <= j < i ==> self@.catalog[j].0 != id@,
            decreases n - i,
        {
            if str_eq(self.catalog[i].id.as_str(), id) {
                let t: Option<&str> = match &self.catalog[i].reftext {
                    Some(v) => Some(v.as_str()),
                    None => None,
                };
                assert(self@.catalog[i as int].0 == id@);
                return Some(t);
            }
            i = i + 1;
        }
        None
    }

    /// The number of IDs registered in the catalog.
    pub fn catalog_len(&self) -> (r: usize)
        ensures
            r == self@.catalog.len(),
    {
        self.catalog.len()
    }

    /// Returns `true` if a section number can be assigned at `level`: the
    /// component it would increment is below the largest `usize`.
    pub fn can_assign_section_number(&self, level: usize) -> (r: bool)
        ensures
            r == (level > 0 && self@.section_number.len() >= level ==> self@.section_number[level
                - 1] < usize::MAX),
    {
        let c = self.section_number.components();
        !(level > 0 && c.len() >= level && c[level - 1] == usize::MAX)
    }

    /// Assigns the next section number at `level` and returns it.
    pub fn assign_section_number(&mut self, level: usize) -> (r: SectionNumber)
        requires
            level > 0 && old(self)@.section_number.len() >= level ==> old(
                self,
            )@.section_number[level - 1] < usize::MAX,
        ensures
            final(self)@.section_number == next_section_number(
                old(self)@.section_number,
                level as int,
            ),
            r@ == final(self)@.section_number,
            final(self)@.attributes == old(self)@.attributes,
            final(self)@.catalog == old(self)@.catalog,
            final(self)@.sectnumlevels == old(self)@.sectnumlevels,
    {
        self.section_number.assign_next_number(level);
        assert(self@.attributes =~= old(self)@.attributes);
        assert(self@.catalog =~= old(self)@.catalog);
        self.section_number.copy()
    }
}

proof fn lemma_attr_index_at(attrs: Seq<(Seq<char>, Option<Seq<char>>)>, name: Seq<char>, i: int)
    requires
        0 <= i < attrs.len(),
        attrs[i].0 == name,
        forall|j: int| 0 <= j < i ==> attrs[j].0 != name,
    ensures
        attr_index(attrs, name) == Some(i),
    decreases i,
{
    if i > 0 {
        lemma_attr_index_at(attrs.drop_first(), name, i - 1);
    }
}

proof fn lemma_attr_index_none(attrs: Seq<(Seq<char>, Option<Seq<char>>)>, name: Seq<char>)
    requires
        forall|j: int| 0 <= j < attrs.len() ==> attrs[j].0 != name,
    ensures
        attr_index(attrs, name) is None,
    decreases attrs.len(),
{
    if attrs.len() > 0 {
        lemma_attr_index_none(attrs.drop_first(), name);
    }
}

proof fn lemma_attr_lookup_index(attrs: Seq<(Seq<char>, Option<Seq<char>>)>, name: Seq<char>)
    ensures
        match attr_index(attrs, name) {
            Some(i) => 0 <= i < attrs.len() && attr_lookup(attrs, name) == attrs[i].1,
            None => attr_lookup(attrs, name) is None,
        },
    decreases attrs.len(),
{
    if attrs.len() > 0 {
        lemma_attr_lookup_index(attrs.drop_first(), name);
    }
}

/// Setting an attribute makes its value the one that is looked up, and
/// leaves every other attribute as it was.
pub proof fn lemma_attr_set_lookup(
    attrs: Seq<(Seq<char>, Option<Seq<char>>)>,
    name: Seq<char>,
    value: Option<Seq<char>>,
    other: Seq<char>,
)
    ensures
        attr_lookup(attr_set(attrs, name, value), name) == value,
        other != name ==> attr_lookup(attr_set(attrs, name, value), other) == attr_lookup(
            attrs,
            other,
        ),
    decreases attrs.len(),
{
    let s = attr_set(attrs, name, value);
    if attrs.len() == 0 {
        assert(s.len() == 1 && s[0] == (name, value));
        assert(s.drop_first() =~= attrs);
    } else if attrs[0].0 == name {
        assert(attr_index(attrs, name) == Some(0int));
        assert(s[0] == (name, value));
        assert(s.drop_first() =~= attrs.drop_first());
    } else {
        lemma_attr_set_lookup(attrs.drop_first(), name, value, other);
        match attr_index(attrs.drop_first(), name) {
            Some(i) => {
                lemma_attr_lookup_index(attrs.drop_first(), name);
                assert(attr_index(attrs, name) == Some(i + 1));
                assert(s[0] == attrs[0]);
                assert(s.drop_first() =~= attr_set(attrs.drop_first(), name, value));
            },
            None => {
                assert(attr_index(attrs, name) is None);
                assert(s[0] == attrs[0]);
                assert(s.drop_first() =~= attr_set(attrs.drop_first(), name, value));
            },
        }
    }
}

} // verus!
