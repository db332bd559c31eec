//! Exercises over vectors, strings and keyed collections: parity, the
//! most frequent elements of a vector, a pig-latin transliteration, an
//! employee directory keyed by department, and the little command
//! language that drives the directory.

use vstd::prelude::*;
use vstd::string::StringExecFns;

verus! {

/// Relies on String::push: appending one character to a string appends
/// exactly that character to its contents.
pub assume_specification[ String::push ](s: &mut String, ch: char)
    ensures
        final(s)@ == old(s)@.push(ch),
;

/// True exactly when `x` is even.
pub fn is_even(x: i32) -> (r: bool)
    ensures
        r == (x % 2 == 0),
{
    x % 2 == 0
}

/// The ten vowel characters, lower and upper case.
pub open spec fn is_vowel_spec(c: char) -> bool {
    c == 'a' || c == 'e' || c == 'i' || c == 'o' || c == 'u' || c == 'A' || c == 'E' || c == 'I'
        || c == 'O' || c == 'U'
}

/// True exactly when `c` is one of the ten vowel characters.
pub fn is_vowel(c: &char) -> (r: bool)
    ensures
        r == is_vowel_spec(*c),
{
    let vowels = ['a', 'e', 'i', 'o', 'u', 'A', 'E', 'I', 'O', 'U'];
    let mut found = false;
    let mut i: usize = 0;
    while i < 10
        invariant_except_break
            i <= 10,
            vowels@ == seq!['a', 'e', 'i', 'o', 'u', 'A', 'E', 'I', 'O', 'U'],
            found == exists|j: int| 0 <= j < i && vowels@[j] == *c,
        ensures
            found == is_vowel_spec(*c),
        decreases 10 - i,
    {
        if vowels[i] == *c {
            found = true;
            break ;
        }
        i += 1;
    }
    found
}

/// A directory of employees, grouped by department. Each department
/// name appears at most once, in the order departments were first added.
pub struct Departments {
    entries: Vec<(String, Vec<String>)>,
}

impl Departments {
    /// Each department name appears only once.
    pub closed spec fn wf(&self) -> bool {
        forall|p: int, q: int|
            0 <= p < q < self.entries@.len() ==> self.entries@[p].0@ != self.entries@[q].0@
    }

    /// Whether a department of this name exists.
    pub closed spec fn has_dep(&self, dep: Seq<char>) -> bool {
        exists|p: int| 0 <= p < self.entries@.len() && self.entries@[p].0@ == dep
    }

    /// The employees of the department, in the order they were added.
    pub closed spec fn employees_of(&self, dep: Seq<char>) -> Seq<Seq<char>> {
        let p = choose|p: int| 0 <= p < self.entries@.len() && self.entries@[p].0@ == dep;
        self.entries@[p].1.deep_view()
    }

    /// An empty directory.
    pub fn new() -> (d: Departments)
        ensures
            d.wf(),
            forall|dep: Seq<char>| !d.has_dep(dep),
    {
        Departments { entries: Vec::new() }
    }

    /// All departments with their employees, in insertion order.
    pub fn entries(&self) -> (r: &Vec<(String, Vec<String>)>)
        requires
            self.wf(),
        ensures
            forall|p: int|
                0 <= p < r@.len() ==> self.has_dep(#[trigger] r@[p].0@) && self.employees_of(
                    r@[p].0@,
                ) == r@[p].1.deep_view(),
            forall|d: Seq<char>|
                #[trigger] self.has_dep(d) ==> exists|p: int| 0 <= p < r@.len() && r@[p].0@ == d,
    {
        proof {
            assert forall|p: int|
                0 <= p < self.entries@.len() implies self.has_dep(
                #[trigger] self.entries@[p].0@,
            ) && self.employees_of(self.entries@[p].0@) == self.entries@[p].1.deep_view() by {
                lemma_unique_choose(*self, self.entries@[p].0@, p);
            }
        }
        &self.entries
    }

    /// The employees of the department, if it exists.
    pub fn get(&self, dep: &str) -> (r: Option<&Vec<String>>)
        requires
            self.wf(),
        ensures
            r is Some == self.has_dep(dep@),
            r matches Some(v) ==> v.deep_view() == self.employees_of(dep@),
    {
        let n = self.entries.len();
        let mut t: usize = 0;
        while t < n
            invariant
                self.wf(),
                n == self.entries@.len(),
                t <= n,
                forall|p: int| 0 <= p < t ==> self.entries@[p].0@ != dep@,
            decreases n - t,
        {
            if string_matches_str(&self.entries[t].0, dep) {
                proof {
                    lemma_unique_choose(*self, dep@, t as int);
                }
                return Some(&self.entries[t].1);
            }
            t += 1;
        }
        None
    }
}

/// Compares a string to a slice character by character.
fn string_matches_str(a: &String, b: &str) -> (r: bool)
    ensures
        r == (a@ == b@),
{
    let sa = a.as_str();
    let na = sa.unicode_len();
    let nb = b.unicode_len();
    if na != nb {
        proof {
            assert(a@ != b@) by {
                assert(a@.len() != b@.len());
            }
        }
        return false;
    }
    let mut i: usize = 0;
    while i < na
        invariant
            sa@ == a@,
            na == a@.len(),
            na == b@.len(),
            i <= na,
            forall|j: int| 0 <= j < i ==> a@[j] == b@[j],
        decreases na - i,
    {
        if sa.get_char(i) != b.get_char(i) {
            return false;
        }
        i += 1;
    }
    proof {
        assert(a@ =~= b@);
    }
    true
}

/// Adds the employee to the department, creating the department if this
/// is its first employee; all other departments are left alone.
pub fn add_employee(employees: &mut Departments, emp: &str, dep: &str)
    requires
        old(employees).wf(),
    ensures
        final(employees).wf(),
        final(employees).has_dep(dep@),
        final(employees).employees_of(dep@) == if old(employees).has_dep(dep@) {
            old(employees).employees_of(dep@).push(emp@)
        } else {
            seq![emp@]
        },
        forall|d: Seq<char>| d != dep@ ==> #[trigger] final(employees).has_dep(d) == old(
            employees,
        ).has_dep(d),
        forall|d: Seq<char>|
            d != dep@ && old(employees).has_dep(d) ==> #[trigger] final(employees).employees_of(d)
                == old(employees).employees_of(d),
{
    let department_key = String::from_str(dep);
    let employee = String::from_str(emp);
    let n = employees.entries.len();
    let mut t: usize = 0;
    while t < n
        invariant
            old(employees).wf(),
            n == employees.entries@.len(),
            t <= n,
            forall|p: int| 0 <= p < t ==> employees.entries@[p].0@ != dep@,
            *employees == *old(employees),
            department_key@ == dep@,
            employee@ == emp@,
        decreases n - t,
    {
        if employees.entries[t].0.eq(&department_key) {
            let ghost before_entries = employees.entries@;
            let pair = employees.entries.remove(t);
            let ghost gname = pair.0@;
            let ghost ggroup = pair.1.deep_view();
            let name = pair.0;
            let mut group = pair.1;
            group.push(employee);
            proof {
                assert(group.deep_view() =~= ggroup.push(emp@));
            }
            employees.entries.insert(t, (name, group));
            proof {
                assert(employees.entries@[t as int].0@ == gname);
                assert(forall|p: int|
                    0 <= p < before_entries.len() && p != t ==> employees.entries@[p]
                        == before_entries[p]);
                lemma_departments_update(*old(employees), *employees, t as int, dep@, emp@);
            }
            return ;
        }
        t += 1;
    }
    employees.entries.push((department_key, employee_singleton(employee)));
    proof {
        lemma_departments_append(*old(employees), *employees, dep@, emp@);
    }
}

/// A group holding one employee.
fn employee_singleton(employee: String) -> (v: Vec<String>)
    ensures
        v.deep_view() == seq![employee@],
{
    let mut v: Vec<String> = Vec::new();
    v.push(employee);
    proof {
        assert(v.deep_view() =~= seq![employee@]);
    }
    v
}

/// After replacing the group at index `t` (the only entry named `dep`)
/// with the same group plus `emp`, the directory still has unique names,
/// `dep` maps to the extended group, and all other names are untouched.
proof fn lemma_departments_update(
    before: Departments,
    after: Departments,
    t: int,
    dep: Seq<char>,
    emp: Seq<char>,
)
    requires
        before.wf(),
        0 <= t < before.entries@.len(),
        after.entries@.len() == before.entries@.len(),
        before.entries@[t].0@ == dep,
        forall|p: int| 0 <= p < t ==> before.entries@[p].0@ != dep,
        after.entries@[t].0@ == dep,
        after.entries@[t].1.deep_view() == before.entries@[t].1.deep_view().push(emp),
        forall|p: int|
            0 <= p < before.entries@.len() && p != t ==> after.entries@[p] == before.entries@[p],
    ensures
        after.wf(),
        after.has_dep(dep),
        before.has_dep(dep),
        after.employees_of(dep) == before.employees_of(dep).push(emp),
        forall|d: Seq<char>| d != dep ==> #[trigger] after.has_dep(d) == before.has_dep(d),
        forall|d: Seq<char>|
            d != dep && before.has_dep(d) ==> #[trigger] after.employees_of(d)
                == before.employees_of(d),
{
    assert forall|p: int, q: int|
        0 <= p < q < after.entries@.len() implies after.entries@[p].0@
        != after.entries@[q].0@ by {
        assert(after.entries@[p].0@ == before.entries@[p].0@);
        assert(after.entries@[q].0@ == before.entries@[q].0@);
    }
    lemma_unique_choose(after, dep, t);
    lemma_unique_choose(before, dep, t);
    assert forall|d: Seq<char>| d != dep implies #[trigger] after.has_dep(d)
        == before.has_dep(d) by {
        if before.has_dep(d) {
            let p = choose|p: int|
                0 <= p < before.entries@.len() && before.entries@[p].0@ == d;
            assert(after.entries@[p].0@ == d);
        }
        if after.has_dep(d) {
            let p = choose|p: int| 0 <= p < after.entries@.len() && after.entries@[p].0@ == d;
            assert(before.entries@[p].0@ == d);
        }
    }
    assert forall|d: Seq<char>| d != dep && before.has_dep(d) implies #[trigger] after.employees_of(
        d,
    ) == before.employees_of(d) by {
        let p = choose|p: int| 0 <= p < before.entries@.len() && before.entries@[p].0@ == d;
        lemma_unique_choose(before, d, p);
        assert(after.entries@[p].0@ == d);
        lemma_unique_choose(after, d, p);
    }
}

/// After appending a fresh entry for `dep` holding only `emp`, the
/// directory still has unique names, `dep` maps to that one employee,
/// and all other names are untouched.
proof fn lemma_departments_append(
    before: Departments,
    after: Departments,
    dep: Seq<char>,
    emp: Seq<char>,
)
    requires
        before.wf(),
        forall|p: int| 0 <= p < before.entries@.len() ==> before.entries@[p].0@ != dep,
        after.entries@.len() == before.entries@.len() + 1,
        after.entries@[before.entries@.len() as int].0@ == dep,
        after.entries@[before.entries@.len() as int].1.deep_view() == seq![emp],
        forall|p: int|
            0 <= p < before.entries@.len() ==> after.entries@[p] == before.entries@[p],
    ensures
        after.wf(),
        after.has_dep(dep),
        !before.has_dep(dep),
        after.employees_of(dep) == seq![emp],
        forall|d: Seq<char>| d != dep ==> #[trigger] after.has_dep(d) == before.has_dep(d),
        forall|d: Seq<char>|
            d != dep && before.has_dep(d) ==> #[trigger] after.employees_of(d)
                == before.employees_of(d),
{
    let n = before.entries@.len() as int;
    assert forall|p: int, q: int|
        0 <= p < q < after.entries@.len() implies after.entries@[p].0@
        != after.entries@[q].0@ by {
        if q < n {
            assert(after.entries@[p].0@ == before.entries@[p].0@);
            assert(after.entries@[q].0@ == before.entries@[q].0@);
        } else {
            assert(after.entries@[p].0@ == before.entries@[p].0@);
            assert(after.entries@[q].0@ == dep);
        }
    }
    lemma_unique_choose(after, dep, n);
    assert forall|d: Seq<char>| d != dep implies #[trigger] after.has_dep(d)
        == before.has_dep(d) by {
        if before.has_dep(d) {
            let p = choose|p: int|
                0 <= p < before.entries@.len() && before.entries@[p].0@ == d;
            assert(after.entries@[p].0@ == d);
        }
        if after.has_dep(d) {
            let p = choose|p: int| 0 <= p < after.entries@.len() && after.entries@[p].0@ == d;
            assert(p != n);
            assert(before.entries@[p].0@ == d);
        }
    }
    assert forall|d: Seq<char>| d != dep && before.has_dep(d) implies #[trigger] after.employees_of(
        d,
    ) == before.employees_of(d) by {
        let p = choose|p: int| 0 <= p < before.entries@.len() && before.entries@[p].0@ == d;
        lemma_unique_choose(before, d, p);
        assert(after.entries@[p].0@ == d);
        lemma_unique_choose(after, d, p);
    }
}

/// In a well-formed directory, `employees_of` reads the entry at the
/// one index whose name matches.
proof fn lemma_unique_choose(d: Departments, dep: Seq<char>, t: int)
    requires
        d.wf(),
        0 <= t < d.entries@.len(),
        d.entries@[t].0@ == dep,
    ensures
        d.has_dep(dep),
        d.employees_of(dep) == d.entries@[t].1.deep_view(),
{
    let p = choose|p: int| 0 <= p < d.entries@.len() && d.entries@[p].0@ == dep;
    if p != t {
        if p < t {
            assert(d.entries@[p].0@ != d.entries@[t].0@);
        } else {
            assert(d.entries@[t].0@ != d.entries@[p].0@);
        }
    }
}

/// How many times `x` occurs in `s`.
pub open spec fn count_of(s: Seq<i32>, x: i32) -> nat
    decreases s.len(),
{
    if s.len() == 0 {
        0
    } else {
        count_of(s.drop_last(), x) + if s.last() == x {
            1nat
        } else {
            0nat
        }
    }
}

/// The distinct elements of `s`, each at the place of its first
/// occurrence.
pub open spec fn firsts(s: Seq<i32>) -> Seq<i32>
    decreases s.len(),
{
    if s.len() == 0 {
        Seq::<i32>::empty()
    } else {
        let p = firsts(s.drop_last());
        if p.contains(s.last()) {
            p
        } else {
            p.push(s.last())
        }
    }
}

/// `m` is the number of occurrences of a most frequent element of `s`.
pub open spec fn is_max_count(s: Seq<i32>, m: nat) -> bool {
    &&& exists|i: int| 0 <= i < s.len() && count_of(s, s[i]) == m
    &&& forall|i: int| 0 <= i < s.len() ==> count_of(s, s[i]) <= m
}

/// The number of occurrences of a most frequent element of `s`.
pub open spec fn max_count(s: Seq<i32>) -> nat {
    choose|m: nat| is_max_count(s, m)
}

/// Of the elements listed in `f`, those that occur `m` times in `s`,
/// in the order of `f`.
pub open spec fn modes_among(f: Seq<i32>, s: Seq<i32>, m: nat) -> Seq<i32>
    decreases f.len(),
{
    if f.len() == 0 {
        Seq::<i32>::empty()
    } else {
        let p = modes_among(f.drop_last(), s, m);
        if count_of(s, f.last()) == m {
            p.push(f.last())
        } else {
            p
        }
    }
}

/// The modes of `s`: its most frequent elements, in the order of their
/// first occurrence. When every element occurs equally often there is
/// no mode, and the empty sequence is the answer.
pub open spec fn mode_spec(s: Seq<i32>) -> Seq<i32> {
    if s.len() == 0 {
        Seq::<i32>::empty()
    } else if forall|i: int| 0 <= i < s.len() ==> count_of(s, s[i]) == max_count(s) {
        Seq::<i32>::empty()
    } else {
        modes_among(firsts(s), s, max_count(s))
    }
}

/// Appending `e` raises its own count by one and leaves every other
/// count alone.
proof fn lemma_count_of_push(s: Seq<i32>, e: i32, x: i32)
    ensures
        count_of(s.push(e), x) == count_of(s, x) + if e == x {
            1nat
        } else {
            0nat
        },
{
    assert(s.push(e).drop_last() =~= s);
    assert(s.push(e).last() == e);
}

/// No element occurs more often than the sequence is long.
proof fn lemma_count_of_bound(s: Seq<i32>, x: i32)
    ensures
        count_of(s, x) <= s.len(),
    decreases s.len(),
{
    if s.len() > 0 {
        lemma_count_of_bound(s.drop_last(), x);
    }
}

/// An element occurs in `s` exactly when its count is positive.
proof fn lemma_count_of_contains(s: Seq<i32>, x: i32)
    ensures
        (count_of(s, x) > 0) == s.contains(x),
    decreases s.len(),
{
    if s.len() > 0 {
        lemma_count_of_contains(s.drop_last(), x);
        if s.contains(x) {
            let i = choose|i: int| 0 <= i < s.len() && s[i] == x;
            if i < s.len() - 1 {
                assert(s.drop_last()[i] == x);
            }
        }
        if s.drop_last().contains(x) {
            let i = choose|i: int| 0 <= i < s.drop_last().len() && s.drop_last()[i] == x;
            assert(s[i] == x);
        }
    }
}

/// `firsts` lists exactly the elements of `s`.
proof fn lemma_firsts_complete(s: Seq<i32>, x: i32)
    ensures
        firsts(s).contains(x) == s.contains(x),
    decreases s.len(),
{
    if s.len() > 0 {
        lemma_firsts_complete(s.drop_last(), x);
        let p = firsts(s.drop_last());
        if s.contains(x) {
            let i = choose|i: int| 0 <= i < s.len() && s[i] == x;
            if i < s.len() - 1 {
                assert(s.drop_last()[i] == x);
                if !p.contains(s.last()) {
                    assert(p.push(s.last())[choose|j: int|
                        0 <= j < p.len() && p[j] == x] == x);
                }
            } else {
                if !p.contains(s.last()) {
                    assert(p.push(s.last()).last() == x);
                }
            }
        }
        if s.drop_last().contains(x) {
            let i = choose|i: int| 0 <= i < s.drop_last().len() && s.drop_last()[i] == x;
            assert(s[i] == x);
        }
        if firsts(s).contains(x) && !p.contains(x) {
            assert(x == s.last());
            assert(s.contains(x)) by {
                assert(s[s.len() - 1] == x);
            }
        }
    }
}

/// Appending `e` extends `firsts` with `e` exactly when `e` is new.
proof fn lemma_firsts_push(s: Seq<i32>, e: i32)
    ensures
        firsts(s.push(e)) == if firsts(s).contains(e) {
            firsts(s)
        } else {
            firsts(s).push(e)
        },
{
    assert(s.push(e).drop_last() =~= s);
    assert(s.push(e).last() == e);
}

/// A sequence has only one maximal count.
proof fn lemma_max_count_unique(s: Seq<i32>, a: nat, b: nat)
    requires
        is_max_count(s, a),
        is_max_count(s, b),
    ensures
        a == b,
{
    let i = choose|i: int| 0 <= i < s.len() && count_of(s, s[i]) == a;
    let j = choose|j: int| 0 <= j < s.len() && count_of(s, s[j]) == b;
    assert(count_of(s, s[i]) <= b);
    assert(count_of(s, s[j]) <= a);
}

/// Extending the listing `f` by `e` adds `e` to the modes exactly when
/// `e` occurs `m` times.
proof fn lemma_modes_among_push(f: Seq<i32>, e: i32, s: Seq<i32>, m: nat)
    ensures
        modes_among(f.push(e), s, m) == if count_of(s, e) == m {
            modes_among(f, s, m).push(e)
        } else {
            modes_among(f, s, m)
        },
{
    assert(f.push(e).drop_last() =~= f);
    assert(f.push(e).last() == e);
}

/// The most frequent elements of the vector, in the order their first
/// occurrences appear; empty when the vector is empty or when every
/// element occurs equally often (then no element stands out).
pub fn mode(xs: &Vec<i32>) -> (r: Vec<i32>)
    requires
        xs@.len() <= i32::MAX,
    ensures
        r@ == mode_spec(xs@),
{
    let length = xs.len();
    let mut modes: Vec<i32> = Vec::new();
    let mut counts: Vec<(i32, i32)> = Vec::new();
    let mut max_c: i32 = 0;
    let mut mode_exists = false;

    if length > 0 {
        let ghost whole = xs@;
        let mut i: usize = 0;
        proof {
            assert(xs@.take(0int) =~= Seq::<i32>::empty());
        }
        while i < length
            invariant
                length == xs@.len(),
                xs@.len() <= i32::MAX,
                i <= length,
                forall|p: int, q: int|
                    0 <= p < q < counts@.len() ==> counts@[p].0 != counts@[q].0,
                counts@.map_values(|pc: (i32, i32)| pc.0) == firsts(xs@.take(i as int)),
                forall|p: int|
                    0 <= p < counts@.len() ==> counts@[p].1 == count_of(
                        xs@.take(i as int),
                        counts@[p].0,
                    ),
                i == 0 ==> max_c == 0,
                i > 0 ==> is_max_count(xs@.take(i as int), max_c as nat),
                0 <= max_c <= i,
            decreases length - i,
        {
            let ghost pre = xs@.take(i as int);
            let x = xs[i];
            proof {
                assert(xs@.take(i + 1int) =~= pre.push(x));
            }
            let clen = counts.len();
            let mut t: usize = 0;
            while t < clen
                invariant_except_break
                    clen == counts@.len(),
                    t <= clen,
                    forall|p: int| 0 <= p < t ==> counts@[p].0 != x,
                ensures
                    t <= clen,
                    forall|p: int| 0 <= p < t ==> counts@[p].0 != x,
                    t < clen ==> counts@[t as int].0 == x,
                decreases clen - t,
            {
                if counts[t].0 == x {
                    break ;
                }
                t += 1;
            }
            proof {
                lemma_firsts_push(pre, x);
                lemma_count_of_push(pre, x, x);
                lemma_count_of_bound(pre, x);
                lemma_count_of_contains(pre, x);
                lemma_firsts_complete(pre, x);
            }
            let new_count: i32;
            if t < clen {
                let c = counts[t].1;
                proof {
                    let keys = counts@.map_values(|pc: (i32, i32)| pc.0);
                    assert(keys[t as int] == x);
                    assert(firsts(pre).contains(x));
                }
                new_count = c + 1;
                counts.set(t, (x, new_count));
                proof {
                    assert(counts@.map_values(|pc: (i32, i32)| pc.0) =~= firsts(
                        pre.push(x),
                    ));
                    assert forall|p: int| 0 <= p < counts@.len() implies counts@[p].1
                        == count_of(pre.push(x), counts@[p].0) by {
                        lemma_count_of_push(pre, x, counts@[p].0);
                    }
                }
            } else {
                proof {
                    let keys = counts@.map_values(|pc: (i32, i32)| pc.0);
                    assert(!firsts(pre).contains(x)) by {
                        if firsts(pre).contains(x) {
                            let j = choose|j: int|
                                0 <= j < firsts(pre).len() && firsts(pre)[j] == x;
                            assert(keys[j] == x);
                        }
                    }
                    assert(count_of(pre, x) == 0);
                }
                new_count = 1;
                counts.push((x, new_count));
                proof {
                    assert(counts@.map_values(|pc: (i32, i32)| pc.0) =~= firsts(
                        pre.push(x),
                    ));
                    assert forall|p: int| 0 <= p < counts@.len() implies counts@[p].1
                        == count_of(pre.push(x), counts@[p].0) by {
                        lemma_count_of_push(pre, x, counts@[p].0);
                        if p < counts@.len() - 1 {
                            assert(counts@[p].0 != x);
                        }
                    }
                }
            }
            proof {
                assert(count_of(pre.push(x), x) == new_count);
            }
            let ghost gmax0 = max_c;
            if new_count > max_c {
                max_c = new_count;
            }
            proof {
                let post = pre.push(x);
                assert(post.last() == x);
                assert(count_of(post, x) == new_count);
                assert forall|p: int| 0 <= p < post.len() implies count_of(post, post[p])
                    <= max_c by {
                    lemma_count_of_push(pre, x, post[p]);
                    if post[p] != x {
                        assert(p < pre.len() && pre[p] == post[p]);
                        assert(count_of(pre, pre[p]) <= gmax0);
                    }
                }
                assert(is_max_count(post, max_c as nat)) by {
                    if max_c == new_count {
                        assert(post[post.len() - 1] == x);
                        assert(count_of(post, post[post.len() - 1]) == max_c);
                    } else {
                        assert(i > 0);
                        let w = choose|w: int|
                            0 <= w < pre.len() && count_of(pre, pre[w]) == gmax0;
                        assert(pre[w] != x) by {
                            if pre[w] == x {
                                assert(count_of(pre, x) == gmax0);
                                assert(new_count == gmax0 + 1);
                            }
                        }
                        lemma_count_of_push(pre, x, pre[w]);
                        assert(post[w] == pre[w]);
                        assert(count_of(post, post[w]) == gmax0);
                    }
                }
            }
            i += 1;
        }
        proof {
            assert(xs@.take(length as int) =~= xs@);
        }

        let clen = counts.len();
        let mut p: usize = 0;
        proof {
            assert(firsts(xs@).take(0int) =~= Seq::<i32>::empty());
        }
        while p < clen
            invariant
                clen == counts@.len(),
                p <= clen,
                counts@.map_values(|pc: (i32, i32)| pc.0) == firsts(xs@),
                forall|q: int|
                    0 <= q < counts@.len() ==> counts@[q].1 == count_of(xs@, counts@[q].0),
                0 <= max_c,
                is_max_count(xs@, max_c as nat),
                modes@ == modes_among(firsts(xs@).take(p as int), xs@, max_c as nat),
                mode_exists == exists|q: int|
                    0 <= q < p && count_of(xs@, counts@[q].0) < max_c,
            decreases clen - p,
        {
            let ghost fpre = firsts(xs@).take(p as int);
            proof {
                let keys = counts@.map_values(|pc: (i32, i32)| pc.0);
                assert(keys[p as int] == counts@[p as int].0);
                assert(firsts(xs@).take(p + 1int) =~= fpre.push(counts@[p as int].0));
                lemma_modes_among_push(fpre, counts@[p as int].0, xs@, max_c as nat);
            }
            let pair = counts[p];
            if pair.1 < max_c {
                mode_exists = true;
            } else if pair.1 == max_c {
                modes.push(pair.0);
            }
            proof {
                lemma_count_of_bound(xs@, pair.0);
            }
            p += 1;
        }
        proof {
            assert(firsts(xs@).take(clen as int) =~= firsts(xs@));
            let mc = max_count(xs@);
            assert(is_max_count(xs@, mc)) by {
                assert(is_max_count(xs@, max_c as nat));
            }
            lemma_max_count_unique(xs@, mc, max_c as nat);
            let keys = counts@.map_values(|pc: (i32, i32)| pc.0);
            assert(mode_exists == !(forall|w: int|
                0 <= w < xs@.len() ==> count_of(xs@, xs@[w]) == mc)) by {
                if mode_exists {
                    let q = choose|q: int|
                        0 <= q < clen && count_of(xs@, counts@[q].0) < max_c;
                    assert(keys[q] == counts@[q].0);
                    assert(firsts(xs@).contains(counts@[q].0));
                    lemma_firsts_complete(xs@, counts@[q].0);
                    let w = choose|w: int| 0 <= w < xs@.len() && xs@[w] == counts@[q].0;
                    assert(count_of(xs@, xs@[w]) != mc);
                } else {
                    assert forall|w: int| 0 <= w < xs@.len() implies count_of(xs@, xs@[w])
                        == mc by {
                        lemma_firsts_complete(xs@, xs@[w]);
                        assert(firsts(xs@).contains(xs@[w]));
                        let q = choose|q: int|
                            0 <= q < firsts(xs@).len() && firsts(xs@)[q] == xs@[w];
                        assert(keys[q] == firsts(xs@)[q]);
                        assert(counts@[q].0 == xs@[w]);
                        assert(!(count_of(xs@, counts@[q].0) < max_c));
                        assert(count_of(xs@, xs@[w]) <= mc);
                    }
                }
            }
        }
        if !mode_exists {
            let empty_modes: Vec<i32> = Vec::new();
            modes = empty_modes;
        }
    }
    modes
}


/// The characters with the Unicode White_Space property.
pub open spec fn is_whitespace_spec(c: char) -> bool {
    let u = c as u32;
    u == 0x09 || u == 0x0A || u == 0x0B || u == 0x0C || u == 0x0D || u == 0x20 || u == 0x85
        || u == 0xA0 || u == 0x1680 || (0x2000 <= u && u <= 0x200A) || u == 0x2028 || u == 0x2029
        || u == 0x202F || u == 0x205F || u == 0x3000
}

/// True exactly when `c` is white space.
pub fn is_whitespace_char(c: char) -> (r: bool)
    ensures
        r == is_whitespace_spec(c),
{
    let u = c as u32;
    u == 0x09 || u == 0x0A || u == 0x0B || u == 0x0C || u == 0x0D || u == 0x20 || u == 0x85
        || u == 0xA0 || u == 0x1680 || (0x2000 <= u && u <= 0x200A) || u == 0x2028 || u == 0x2029
        || u == 0x202F || u == 0x205F || u == 0x3000
}

/// The upper-case form of an ASCII letter; other characters unchanged.
pub open spec fn ascii_upper_spec(c: char) -> char {
    match c {
        'a' => 'A', 'b' => 'B', 'c' => 'C', 'd' => 'D', 'e' => 'E', 'f' => 'F', 'g' => 'G',
        'h' => 'H', 'i' => 'I', 'j' => 'J', 'k' => 'K', 'l' => 'L', 'm' => 'M', 'n' => 'N',
        'o' => 'O', 'p' => 'P', 'q' => 'Q', 'r' => 'R', 's' => 'S', 't' => 'T', 'u' => 'U',
        'v' => 'V', 'w' => 'W', 'x' => 'X', 'y' => 'Y', 'z' => 'Z',
        _ => c,
    }
}

/// Upper-cases an ASCII letter and leaves every other character alone.
pub fn ascii_upper(c: char) -> (r: char)
    ensures
        r == ascii_upper_spec(c),
{
    match c {
        'a' => 'A', 'b' => 'B', 'c' => 'C', 'd' => 'D', 'e' => 'E', 'f' => 'F', 'g' => 'G',
        'h' => 'H', 'i' => 'I', 'j' => 'J', 'k' => 'K', 'l' => 'L', 'm' => 'M', 'n' => 'N',
        'o' => 'O', 'p' => 'P', 'q' => 'Q', 'r' => 'R', 's' => 'S', 't' => 'T', 'u' => 'U',
        'v' => 'V', 'w' => 'W', 'x' => 'X', 'y' => 'Y', 'z' => 'Z',
        _ => c,
    }
}

/// The lower-case form of an ASCII letter; other characters unchanged.
pub open spec fn ascii_lower_spec(c: char) -> char {
    match c {
        'A' => 'a', 'B' => 'b', 'C' => 'c', 'D' => 'd', 'E' => 'e', 'F' => 'f', 'G' => 'g',
        'H' => 'h', 'I' => 'i', 'J' => 'j', 'K' => 'k', 'L' => 'l', 'M' => 'm', 'N' => 'n',
        'O' => 'o', 'P' => 'p', 'Q' => 'q', 'R' => 'r', 'S' => 's', 'T' => 't', 'U' => 'u',
        'V' => 'v', 'W' => 'w', 'X' => 'x', 'Y' => 'y', 'Z' => 'z',
        _ => c,
    }
}

/// Lower-cases an ASCII letter and leaves every other character alone.
pub fn ascii_lower(c: char) -> (r: char)
    ensures
        r == ascii_lower_spec(c),
{
    match c {
        'A' => 'a', 'B' => 'b', 'C' => 'c', 'D' => 'd', 'E' => 'e', 'F' => 'f', 'G' => 'g',
        'H' => 'h', 'I' => 'i', 'J' => 'j', 'K' => 'k', 'L' => 'l', 'M' => 'm', 'N' => 'n',
        'O' => 'o', 'P' => 'p', 'Q' => 'q', 'R' => 'r', 'S' => 's', 'T' => 't', 'U' => 'u',
        'V' => 'v', 'W' => 'w', 'X' => 'x', 'Y' => 'y', 'Z' => 'z',
        _ => c,
    }
}

/// Whether the character has the Unicode Alphabetic property. The
/// property covers many scripts; only its restriction to ASCII is
/// spelled out here.
pub uninterp spec fn alphabetic(c: char) -> bool;

/// Relies on char::is_alphabetic: whether the character has the Unicode
/// Alphabetic property, a function of the character alone. Within
/// ASCII, exactly the letters have it.
#[verifier::external_body]
fn char_is_alphabetic(c: char) -> (r: bool)
    ensures
        r == alphabetic(c),
        ('a' <= c && c <= 'z') || ('A' <= c && c <= 'Z') ==> r,
        (c as u32) < 128 && !(('a' <= c && c <= 'z') || ('A' <= c && c <= 'Z')) ==> !r,
{
    c.is_alphabetic()
}

/// How many bytes the character takes in UTF-8.
pub open spec fn char_utf8_len(c: char) -> int {
    if (c as u32) < 0x80 {
        1
    } else if (c as u32) < 0x800 {
        2
    } else if (c as u32) < 0x10000 {
        3
    } else {
        4
    }
}

/// How many bytes the character sequence takes in UTF-8.
pub open spec fn utf8_len_of(w: Seq<char>) -> int
    decreases w.len(),
{
    if w.len() == 0 {
        0
    } else {
        char_utf8_len(w[0]) + utf8_len_of(w.drop_first())
    }
}

/// How many bytes one character takes in UTF-8.
pub fn char_len_utf8(c: char) -> (r: usize)
    ensures
        r == char_utf8_len(c),
{
    let u = c as u32;
    if u < 0x80 {
        1
    } else if u < 0x800 {
        2
    } else if u < 0x10000 {
        3
    } else {
        4
    }
}

/// A sequence takes at least one byte per character.
proof fn lemma_utf8_len_lower(w: Seq<char>)
    ensures
        utf8_len_of(w) >= w.len(),
    decreases w.len(),
{
    if w.len() > 0 {
        lemma_utf8_len_lower(w.drop_first());
    }
}

/// Byte lengths add over concatenation.
proof fn lemma_utf8_len_concat(a: Seq<char>, b: Seq<char>)
    ensures
        utf8_len_of(a + b) == utf8_len_of(a) + utf8_len_of(b),
    decreases a.len(),
{
    if a.len() == 0 {
        assert(a + b =~= b);
    } else {
        assert((a + b).drop_first() =~= a.drop_first() + b);
        lemma_utf8_len_concat(a.drop_first(), b);
    }
}

/// Appending one character adds that character's byte length.
proof fn lemma_utf8_len_push(w: Seq<char>, c: char)
    ensures
        utf8_len_of(w.push(c)) == utf8_len_of(w) + char_utf8_len(c),
{
    assert(w.push(c) =~= w + seq![c]);
    lemma_utf8_len_concat(w, seq![c]);
    assert(utf8_len_of(seq![c]) == char_utf8_len(c)) by {
        reveal_with_fuel(utf8_len_of, 2);
        assert(seq![c].drop_first() =~= Seq::<char>::empty());
    }
}

/// `utf8_len_of` agrees with the length of the UTF-8 encoding.
proof fn lemma_utf8_len_is_encode_len(w: Seq<char>)
    ensures
        utf8_len_of(w) == vstd::utf8::encode_utf8(w).len(),
    decreases w.len(),
{
    if w.len() > 0 {
        lemma_utf8_len_is_encode_len(w.drop_first());
        vstd::utf8::char_is_scalar(w[0]);
        assert(vstd::utf8::encode_scalar(w[0] as u32).len() == char_utf8_len(w[0]));
    }
}

/// The index of the first white-space character, or the length if
/// there is none.
pub open spec fn first_ws_index(s: Seq<char>) -> int
    decreases s.len(),
{
    if s.len() == 0 {
        0
    } else if is_whitespace_spec(s[0]) {
        0
    } else {
        1 + first_ws_index(s.drop_first())
    }
}

/// What `first_ws_index` returns is an index into the sequence (or its
/// length), everything before it is not white space, and what it points
/// at, if anything, is.
pub proof fn lemma_first_ws_index(s: Seq<char>)
    ensures
        0 <= first_ws_index(s) <= s.len(),
        forall|j: int| 0 <= j < first_ws_index(s) ==> !is_whitespace_spec(s[j]),
        first_ws_index(s) < s.len() ==> is_whitespace_spec(s[first_ws_index(s)]),
    decreases s.len(),
{
    if s.len() != 0 && !is_whitespace_spec(s[0]) {
        lemma_first_ws_index(s.drop_first());
        assert forall|j: int| 0 <= j < first_ws_index(s) implies !is_whitespace_spec(s[j]) by {
            if j > 0 {
                assert(s.drop_first()[j - 1] == s[j]);
            }
        }
    }
}

/// The words of the sequence: the maximal runs of non-white-space
/// characters, in order.
pub open spec fn words_of(s: Seq<char>) -> Seq<Seq<char>>
    decreases s.len(),
    via words_of_decreases
{
    if s.len() == 0 {
        Seq::<Seq<char>>::empty()
    } else if is_whitespace_spec(s[0]) {
        words_of(s.drop_first())
    } else {
        seq![s.take(first_ws_index(s))] + words_of(s.skip(first_ws_index(s)))
    }
}

#[via_fn]
proof fn words_of_decreases(s: Seq<char>) {
    lemma_first_ws_index(s);
}

/// One word, transliterated. A word beginning with a vowel keeps that
/// vowel and later gains the ending "-hay"; one beginning with a
/// consonant loses it up front and gains "-<consonant>ay", the moved
/// consonant in lower case. The ending is only attached when the word
/// has at least two characters and its character count equals its byte
/// count; a trailing non-letter, such as punctuation, goes behind the
/// ending. In the first word of a text a lost consonant's place is
/// taken by upper-casing the second character.
pub open spec fn pig_word(w: Seq<char>, first_word: bool) -> Seq<char>
    recommends
        w.len() > 0,
{
    let c1 = w[0];
    let vowel = is_vowel_spec(c1);
    let n = w.len() as int;
    let has_tail = n >= 2 && utf8_len_of(w) == n;
    let m = if has_tail {
        n - 1
    } else {
        n
    };
    let head: Seq<char> = if vowel {
        seq![c1]
    } else {
        Seq::<char>::empty()
    };
    let mids = Seq::new(
        (m - 1) as nat,
        |t: int|
            if t == 0 && first_word && !vowel {
                ascii_upper_spec(w[1])
            } else {
                w[t + 1]
            },
    );
    if has_tail {
        let cl = w[n - 1];
        let tail: Seq<char> = if vowel {
            seq!['h', 'a', 'y']
        } else {
            seq![ascii_lower_spec(c1), 'a', 'y']
        };
        if alphabetic(cl) {
            head + mids + seq![cl, '-'] + tail
        } else {
            head + mids + seq!['-'] + tail + seq![cl]
        }
    } else {
        head + mids
    }
}

/// The words transliterated one after the other, a single space before
/// every word but the first.
pub open spec fn pig_words(ws: Seq<Seq<char>>, first: bool) -> Seq<char>
    decreases ws.len(),
{
    if ws.len() == 0 {
        Seq::<char>::empty()
    } else {
        let sep: Seq<char> = if first {
            Seq::<char>::empty()
        } else {
            seq![' ']
        };
        sep + pig_word(ws[0], first) + pig_words(ws.drop_first(), false)
    }
}

/// The whole text transliterated word by word.
pub open spec fn pig_latin_spec(s: Seq<char>) -> Seq<char> {
    pig_words(words_of(s), true)
}


/// Appends the transliteration of the word of `st` between character
/// positions `i` and `j` to `out`.
#[verifier::rlimit(100)]
#[verifier::spinoff_prover]
fn append_pig_word(out: &mut String, st: &str, i: usize, j: usize, first: bool)
    requires
        i < j <= st@.len(),
        utf8_len_of(st@) <= usize::MAX,
    ensures
        final(out)@ == old(out)@ + pig_word(st@.subrange(i as int, j as int), first),
{
    let ghost w = st@.subrange(i as int, j as int);
    let ghost base = out@;

    // The word's length in bytes.
    let mut lw: usize = 0;
    let mut k = i;
    proof {
        assert(w.take(0int) =~= Seq::<char>::empty());
    }
    while k < j
        invariant
            i < j <= st@.len(),
            utf8_len_of(st@) <= usize::MAX,
            i <= k <= j,
            w == st@.subrange(i as int, j as int),
            lw == utf8_len_of(w.take(k - i)),
        decreases j - k,
    {
        let ck = st.get_char(k);
        proof {
            assert(w[k - i] == st@[k as int]);
            assert(w.take(k - i + 1) =~= w.take(k - i).push(st@[k as int]));
            lemma_utf8_len_push(w.take(k - i), st@[k as int]);
            assert(st@ =~= (st@.take(i as int) + w.take(k - i + 1)) + st@.skip(k + 1int));
            lemma_utf8_len_concat(st@.take(i as int), w.take(k - i + 1));
            lemma_utf8_len_concat(st@.take(i as int) + w.take(k - i + 1), st@.skip(k + 1int));
            lemma_utf8_len_lower(st@.take(i as int));
            lemma_utf8_len_lower(st@.skip(k + 1int));
            lemma_utf8_len_lower(w.take(k - i + 1));
        }
        lw += char_len_utf8(ck);
        k += 1;
    }
    proof {
        assert(w.take(j - i) =~= w);
    }

    let nw = j - i;
    let c1 = st.get_char(i);
    proof {
        assert(w[0] == st@[i as int]);
    }
    let vowel = is_vowel(&c1);
    if vowel {
        out.push(c1);
    }
    let ghost head: Seq<char> = if vowel {
        seq![c1]
    } else {
        Seq::<char>::empty()
    };
    proof {
        assert(out@ =~= base + head);
    }

    let has_tail = nw >= 2 && lw == nw;
    let m = if has_tail {
        nw - 1
    } else {
        nw
    };
    let ghost mids = Seq::new(
        (m - 1) as nat,
        |t: int|
            if t == 0 && first && !vowel {
                ascii_upper_spec(w[1])
            } else {
                w[t + 1]
            },
    );
    proof {
        assert(out@ =~= base + head + mids.take(0int));
    }
    let mut k2: usize = 1;
    while k2 < m
        invariant
            i < j <= st@.len(),
            w == st@.subrange(i as int, j as int),
            nw == j - i,
            1 <= m <= nw,
            1 <= k2 <= m,
            vowel == is_vowel_spec(w[0]),
            mids == Seq::new(
                (m - 1) as nat,
                |t: int|
                    if t == 0 && first && !vowel {
                        ascii_upper_spec(w[1])
                    } else {
                        w[t + 1]
                    },
            ),
            out@ == base + head + mids.take(k2 - 1),
        decreases m - k2,
    {
        let ck = st.get_char(i + k2);
        proof {
            assert(w[k2 as int] == st@[i + k2]);
            assert(mids.take(k2 as int) =~= mids.take(k2 - 1).push(mids[k2 - 1]));
        }
        if k2 == 1 && first && !vowel {
            out.push(ascii_upper(ck));
        } else {
            out.push(ck);
        }
        k2 += 1;
    }
    proof {
        assert(mids.take(m - 1) =~= mids);
        assert(out@ == base + head + mids);
    }

    if has_tail {
        let cl = st.get_char(j - 1);
        proof {
            assert(w[nw - 1] == st@[j - 1]);
        }
        let letter = char_is_alphabetic(cl);
        if letter {
            out.push(cl);
        }
        out.push('-');
        if vowel {
            out.append("hay");
        } else {
            out.push(ascii_lower(c1));
            out.append("ay");
        }
        if !letter {
            out.push(cl);
        }
        proof {
            reveal_strlit("hay");
            reveal_strlit("ay");
            assert("hay"@ =~= seq!['h', 'a', 'y']);
            assert("ay"@ =~= seq!['a', 'y']);
        }
    }
    proof {
        assert(utf8_len_of(w) == lw);
        assert(out@ =~= base + pig_word(w, first));
    }
}

/// Transliterates the text into pig latin, word by word: "first" at
/// the start of a text turns into "Irst-fay", "apple" into "apple-hay",
/// and words are joined by single spaces.
#[verifier::rlimit(100)]
#[verifier::spinoff_prover]
pub fn pig_latin(s: &String) -> (r: String)
    ensures
        r@ == pig_latin_spec(s@),
{
    let st = s.as_str();
    let n = st.unicode_len();
    let total_bytes = st.as_bytes().len();
    proof {
        lemma_utf8_len_is_encode_len(s@);
    }
    let mut out = String::new();
    let mut first = true;
    let mut i: usize = 0;
    proof {
        assert(s@.skip(0int) =~= s@);
        assert(Seq::<char>::empty() + pig_words(words_of(s@), true) =~= pig_latin_spec(s@));
    }
    while i < n
        invariant
            st@ == s@,
            n == s@.len(),
            total_bytes == utf8_len_of(s@),
            i <= n,
            out@ + pig_words(words_of(s@.skip(i as int)), first) == pig_latin_spec(s@),
        decreases n - i,
    {
        let c = st.get_char(i);
        if is_whitespace_char(c) {
            proof {
                assert(s@.skip(i as int).drop_first() =~= s@.skip(i + 1int));
            }
            i += 1;
        } else {
            let ghost rest = s@.skip(i as int);
            let ghost out_start = out@;

            // Find the end of the word.
            let mut j = i;
            while j < n && !is_whitespace_char(st.get_char(j))
                invariant
                    st@ == s@,
                    n == s@.len(),
                    i <= j <= n,
                    forall|k: int| i <= k < j ==> !is_whitespace_spec(s@[k]),
                decreases n - j,
            {
                j += 1;
            }
            let ghost w = s@.subrange(i as int, j as int);
            proof {
                lemma_first_ws_index(rest);
                assert(forall|k: int|
                    0 <= k < j - i ==> rest[k] == s@[i + k] && !is_whitespace_spec(rest[k]));
                assert(first_ws_index(rest) == j - i) by {
                    if first_ws_index(rest) < j - i {
                        assert(is_whitespace_spec(rest[first_ws_index(rest)]));
                    }
                    if first_ws_index(rest) > j - i {
                        assert(j < n);
                        assert(rest[j - i] == s@[j as int]);
                        assert(is_whitespace_spec(rest[j - i]));
                    }
                }
                assert(rest.take(j - i) =~= w);
                assert(rest.skip(j - i) =~= s@.skip(j as int));
                assert(words_of(rest) == seq![w] + words_of(s@.skip(j as int)));
                assert(w.len() > 0) by {
                    assert(!is_whitespace_spec(rest[0]));
                }
            }

            if !first {
                out.push(' ');
            }
            append_pig_word(&mut out, st, i, j, first);
            proof {
                let sep: Seq<char> = if first {
                    Seq::<char>::empty()
                } else {
                    seq![' ']
                };
                assert(out@ =~= out_start + sep + pig_word(w, first));
                let ws = words_of(rest);
                assert(ws[0] == w);
                assert(ws.drop_first() =~= words_of(s@.skip(j as int)));
                assert(pig_words(ws, first) == sep + pig_word(w, first) + pig_words(
                    words_of(s@.skip(j as int)),
                    false,
                ));
                assert(out@ + pig_words(words_of(s@.skip(j as int)), false) =~= out_start
                    + pig_words(ws, first));
            }
            first = false;
            i = j;
        }
    }
    proof {
        assert(s@.skip(n as int) =~= Seq::<char>::empty());
        assert(out@ + Seq::<char>::empty() =~= out@);
    }
    out
}


/// Splits the line into its words: the maximal runs of non-white-space
/// characters, in order.
pub fn split_words(line: &str) -> (r: Vec<String>)
    ensures
        r.deep_view() == words_of(line@),
{
    let n = line.unicode_len();
    let mut r: Vec<String> = Vec::new();
    let mut i: usize = 0;
    proof {
        assert(line@.skip(0int) =~= line@);
        assert(r.deep_view() + words_of(line@) =~= words_of(line@));
    }
    while i < n
        invariant
            n == line@.len(),
            i <= n,
            r.deep_view() + words_of(line@.skip(i as int)) == words_of(line@),
        decreases n - i,
    {
        let c = line.get_char(i);
        if is_whitespace_char(c) {
            proof {
                assert(line@.skip(i as int).drop_first() =~= line@.skip(i + 1int));
            }
            i += 1;
        } else {
            let ghost rest = line@.skip(i as int);

            let mut j = i;
            while j < n && !is_whitespace_char(line.get_char(j))
                invariant
                    n == line@.len(),
                    i <= j <= n,
                    forall|k: int| i <= k < j ==> !is_whitespace_spec(line@[k]),
                decreases n - j,
            {
                j += 1;
            }
            let ghost w = line@.subrange(i as int, j as int);
            proof {
                lemma_first_ws_index(rest);
                assert(forall|k: int|
                    0 <= k < j - i ==> rest[k] == line@[i + k] && !is_whitespace_spec(rest[k]));
                assert(first_ws_index(rest) == j - i) by {
                    if first_ws_index(rest) < j - i {
                        assert(is_whitespace_spec(rest[first_ws_index(rest)]));
                    }
                    if first_ws_index(rest) > j - i {
                        assert(j < n);
                        assert(rest[j - i] == line@[j as int]);
                        assert(is_whitespace_spec(rest[j - i]));
                    }
                }
                assert(rest.take(j - i) =~= w);
                assert(rest.skip(j - i) =~= line@.skip(j as int));
                assert(words_of(rest) == seq![w] + words_of(line@.skip(j as int)));
            }

            let mut word = String::new();
            let mut k = i;
            proof {
                assert(word@ =~= w.take(0int));
            }
            while k < j
                invariant
                    n == line@.len(),
                    i <= k <= j <= n,
                    w == line@.subrange(i as int, j as int),
                    word@ == w.take(k - i),
                decreases j - k,
            {
                let ck = line.get_char(k);
                proof {
                    assert(w[k - i] == line@[k as int]);
                    assert(w.take(k - i + 1) =~= w.take(k - i).push(line@[k as int]));
                }
                word.push(ck);
                k += 1;
            }
            proof {
                assert(w.take(j - i) =~= w);
            }
            let ghost before = r.deep_view();
            r.push(word);
            proof {
                assert(r.deep_view() =~= before.push(w));
                assert(before.push(w) =~= before + seq![w]);
                assert((before + seq![w]) + words_of(line@.skip(j as int)) =~= before + (seq![
                    w,
                ] + words_of(line@.skip(j as int))));
            }
            i = j;
        }
    }
    proof {
        assert(line@.skip(n as int) =~= Seq::<char>::empty());
        assert(r.deep_view() + words_of(Seq::<char>::empty()) =~= r.deep_view());
    }
    r
}

/// A command for the employee directory.
pub enum Command {
    /// List every department.
    ShowAll,
    /// List one department.
    Show { department: String },
    /// Put an employee into a department.
    Add { employee: String, department: String },
    /// Stop reading commands.
    Quit,
}

/// The ghost shape of a `Command`, over character sequences.
pub enum CommandModel {
    ShowAll,
    Show { department: Seq<char> },
    Add { employee: Seq<char>, department: Seq<char> },
    Quit,
}

impl View for Command {
    type V = CommandModel;

    open spec fn view(&self) -> CommandModel {
        match self {
            Command::ShowAll => CommandModel::ShowAll,
            Command::Show { department } => CommandModel::Show { department: department@ },
            Command::Add { employee, department } => CommandModel::Add {
                employee: employee@,
                department: department@,
            },
            Command::Quit => CommandModel::Quit,
        }
    }
}

/// What a line of input asks for. The first word is the verb; "show
/// all" lists everything, "show <department>" lists one department, and
/// "add <employee> to <department>" files an employee (the third word
/// is not read). A line with fewer words than its verb needs, or an
/// unknown verb, ends the session.
pub open spec fn command_spec(s: Seq<char>) -> CommandModel {
    let ws = words_of(s);
    if ws.len() < 2 {
        CommandModel::Quit
    } else if ws[0] == "show"@ {
        if ws[1] == "all"@ {
            CommandModel::ShowAll
        } else {
            CommandModel::Show { department: ws[1] }
        }
    } else if ws[0] == "add"@ {
        if ws.len() < 4 {
            CommandModel::Quit
        } else {
            CommandModel::Add { employee: ws[1], department: ws[3] }
        }
    } else {
        CommandModel::Quit
    }
}

/// Reads a command from one line of input.
pub fn parse_command(line: &str) -> (r: Command)
    ensures
        r@ == command_spec(line@),
{
    let words = split_words(line);
    if words.len() < 2 {
        return Command::Quit;
    }
    proof {
        assert(words.deep_view()[0] == words@[0]@);
        assert(words.deep_view()[1] == words@[1]@);
    }
    if string_matches_str(&words[0], "show") {
        if string_matches_str(&words[1], "all") {
            Command::ShowAll
        } else {
            let department = words[1].clone();
            Command::Show { department }
        }
    } else if string_matches_str(&words[0], "add") {
        if words.len() < 4 {
            Command::Quit
        } else {
            proof {
                assert(words.deep_view()[3] == words@[3]@);
            }
            let employee = words[1].clone();
            let department = words[3].clone();
            Command::Add { employee, department }
        }
    } else {
        Command::Quit
    }
}

} // verus!
