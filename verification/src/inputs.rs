//! Names of external inputs, the declared interface of a compiled function
//! (`ParameterList`), and the evaluation context (`ExternParameters`).

use vstd::prelude::*;

use crate::dtype::DataType;
use crate::eval::EvalError;
use crate::value::Value;

verus! {

/// The name of an external value input.
#[derive(Debug)]
pub struct ExternInputId(pub String);

impl View for ExternInputId {
    type V = Seq<char>;

    open spec fn view(&self) -> Seq<char> {
        self.0@
    }
}

impl ExternInputId {
    pub fn new(name: String) -> (r: Self)
        ensures
            r@ == name@,
    {
        ExternInputId(name)
    }

    pub fn as_str(&self) -> (r: &str)
        ensures
            r@ == self@,
    {
        self.0.as_str()
    }

    /// Whether this name comes strictly before `other` in code-point order.
    pub fn lt(&self, other: &Self) -> (r: bool)
        ensures
            r == lex_lt(self@, other@),
    {
        str_lex_lt(self.0.as_str(), other.0.as_str())
    }
}

impl Clone for ExternInputId {
    fn clone(&self) -> (r: Self)
        ensures
            r@ == self@,
    {
        ExternInputId(self.0.clone())
    }
}

impl PartialEq for ExternInputId {
    fn eq(&self, other: &Self) -> (r: bool) {
        self.0 == other.0
    }
}

impl vstd::std_specs::cmp::PartialEqSpecImpl for ExternInputId {
    open spec fn obeys_eq_spec() -> bool {
        true
    }

    open spec fn eq_spec(&self, other: &Self) -> bool {
        self.0@ == other.0@
    }
}

/// The name of an external sampler input.
#[derive(Debug)]
pub struct ExternSamplerId(pub String);

impl View for ExternSamplerId {
    type V = Seq<char>;

    open spec fn view(&self) -> Seq<char> {
        self.0@
    }
}

impl ExternSamplerId {
    pub fn new(name: String) -> (r: Self)
        ensures
            r@ == name@,
    {
        ExternSamplerId(name)
    }
}

/// Strict code-point order on character sequences. For strings this agrees
/// with the byte order on their UTF-8 encodings.
pub open spec fn lex_lt(a: Seq<char>, b: Seq<char>) -> bool
    decreases a.len(),
{
    if b.len() == 0 {
        false
    } else if a.len() == 0 {
        true
    } else if (a[0] as int) < (b[0] as int) {
        true
    } else if (a[0] as int) > (b[0] as int) {
        false
    } else {
        lex_lt(a.skip(1), b.skip(1))
    }
}

/// After `i` equal characters, the order is decided by the remainders.
proof fn lemma_lex_lt_skip(a: Seq<char>, b: Seq<char>, i: int)
    requires
        0 <= i <= a.len(),
        i <= b.len(),
        forall|j: int| 0 <= j < i ==> a[j] == b[j],
    ensures
        lex_lt(a, b) == lex_lt(a.skip(i), b.skip(i)),
    decreases i,
{
    if i > 0 {
        assert(a[0] == b[0]);
        assert(lex_lt(a, b) == lex_lt(a.skip(1), b.skip(1)));
        assert(a.skip(1).skip(i - 1) =~= a.skip(i));
        assert(b.skip(1).skip(i - 1) =~= b.skip(i));
        assert(forall|j: int| 0 <= j < i - 1 ==> a.skip(1)[j] == b.skip(1)[j]);
        lemma_lex_lt_skip(a.skip(1), b.skip(1), i - 1);
    } else {
        assert(a.skip(0) =~= a);
        assert(b.skip(0) =~= b);
    }
}

/// Two sequences, neither before the other, are equal.
pub proof fn lemma_lex_lt_connected(a: Seq<char>, b: Seq<char>)
    requires
        !lex_lt(a, b),
        !lex_lt(b, a),
    ensures
        a == b,
    decreases a.len(),
{
    if a.len() == 0 || b.len() == 0 {
        assert(a =~= b);
    } else {
        assert((a[0] as int) == (b[0] as int));
        assert(a[0] == b[0]);
        lemma_lex_lt_connected(a.skip(1), b.skip(1));
        assert(a =~= seq![a[0]] + a.skip(1));
        assert(b =~= seq![b[0]] + b.skip(1));
    }
}

/// The order is transitive.
pub proof fn lemma_lex_lt_trans(a: Seq<char>, b: Seq<char>, c: Seq<char>)
    requires
        lex_lt(a, b),
        lex_lt(b, c),
    ensures
        lex_lt(a, c),
    decreases a.len(),
{
    if a.len() != 0 && b.len() != 0 && c.len() != 0 {
        if (a[0] as int) == (b[0] as int) && (b[0] as int) == (c[0] as int) {
            lemma_lex_lt_trans(a.skip(1), b.skip(1), c.skip(1));
        }
    }
}

/// Compares two strings in code-point order.
pub fn str_lex_lt(a: &str, b: &str) -> (r: bool)
    ensures
        r == lex_lt(a@, b@),
{
    let a_len = a.unicode_len();
    let b_len = b.unicode_len();
    let mut i: usize = 0;
    loop
        invariant
            0 <= i <= a_len,
            i <= b_len,
            a_len == a@.len(),
            b_len == b@.len(),
            forall|j: int| 0 <= j < i ==> a@[j] == b@[j],
        decreases a_len - i,
    {
        proof {
            lemma_lex_lt_skip(a@, b@, i as int);
        }
        if i >= a_len || i >= b_len {
            return a_len < b_len;
        }
        let ca = a.get_char(i);
        let cb = b.get_char(i);
        if (ca as u32) < (cb as u32) {
            return true;
        }
        if (ca as u32) > (cb as u32) {
            return false;
        }
        i += 1;
    }
}

/// The declared interface of one compiled function: for each external input
/// name, the type its producer promises. Names are unique.
#[derive(Debug)]
pub struct ParameterList {
    pub entries: Vec<(ExternInputId, DataType)>,
}

impl ParameterList {
    /// The entries in declaration order.
    pub open spec fn entries_view(&self) -> Seq<(Seq<char>, DataType)> {
        self.entries@.map_values(|e: (ExternInputId, DataType)| (e.0@, e.1))
    }

    /// Names never repeat.
    pub open spec fn wf(&self) -> bool {
        forall|i: int, j: int|
            0 <= i < j < self.entries@.len() ==> self.entries@[i].0@ != self.entries@[j].0@
    }

    pub open spec fn contains_name(&self, name: Seq<char>) -> bool {
        exists|i: int| 0 <= i < self.entries@.len() && self.entries@[i].0@ == name
    }

    /// The declared type of `name`, when `name` is declared.
    pub open spec fn dtype_of(&self, name: Seq<char>) -> DataType {
        self.entries@[choose|i: int|
            0 <= i < self.entries@.len() && self.entries@[i].0@ == name].1
    }

    pub fn new() -> (r: Self)
        ensures
            r.wf(),
            r.entries_view() =~= Seq::<(Seq<char>, DataType)>::empty(),
    {
        ParameterList { entries: Vec::new() }
    }

    /// The declared entries, in declaration order.
    pub fn inputs(&self) -> (r: &Vec<(ExternInputId, DataType)>)
        ensures
            r@ == self.entries@,
    {
        &self.entries
    }

    /// The index of `id` among the entries, if it is declared.
    fn position(&self, id: &ExternInputId) -> (r: Option<usize>)
        ensures
            match r {
                Some(i) => i < self.entries@.len() && self.entries@[i as int].0@ == id@,
                None => !self.contains_name(id@),
            },
    {
        let n = self.entries.len();
        let mut i: usize = 0;
        while i < n
            invariant
                0 <= i <= n,
                n == self.entries@.len(),
                forall|j: int| 0 <= j < i ==> self.entries@[j].0@ != id@,
            decreases n - i,
        {
            if self.entries[i].0.eq(id) {
                return Some(i);
            }
            i += 1;
        }
        None
    }

    /// Declares `id` with type `dtype`; a name already declared keeps its
    /// place and gets the new type.
    pub fn insert(&mut self, id: ExternInputId, dtype: DataType)
        requires
            old(self).wf(),
        ensures
            final(self).wf(),
            final(self).contains_name(id@),
            final(self).dtype_of(id@) == dtype,
            forall|name: Seq<char>|
                name != id@ ==> final(self).contains_name(name) == old(self).contains_name(name),
            forall|name: Seq<char>|
                name != id@ && old(self).contains_name(name) ==> final(self).dtype_of(name) == old(
                    self,
                ).dtype_of(name),
    {
        let pos = self.position(&id);
        match pos {
            Some(i) => {
                let ghost oldv = self.entries@;
                self.entries.set(i, (id, dtype));
                proof {
                    let newv = self.entries@;
                    assert forall|p: int, q: int| 0 <= p < q < newv.len() implies newv[p].0@
                        != newv[q].0@ by {
                        assert(oldv[p].0@ != oldv[q].0@);
                    }
                    lemma_unique_entry(newv, i as int);
                    assert forall|name: Seq<char>| name != id@ implies self.contains_name(name)
                        == old(self).contains_name(name) by {
                        if old(self).contains_name(name) {
                            let j = choose|j: int| 0 <= j < oldv.len() && oldv[j].0@ == name;
                            assert(newv[j].0@ == name);
                        }
                        if self.contains_name(name) {
                            let j = choose|j: int| 0 <= j < newv.len() && newv[j].0@ == name;
                            assert(oldv[j].0@ == name);
                        }
                    }
                    assert forall|name: Seq<char>|
                        name != id@ && old(self).contains_name(name) implies self.dtype_of(name)
                        == old(self).dtype_of(name) by {
                        let j = choose|j: int| 0 <= j < oldv.len() && oldv[j].0@ == name;
                        lemma_unique_entry(newv, j);
                        assert(oldv[j] == newv[j]);
                        lemma_unique_entry(oldv, j);
                    }
                }
            },
            None => {
                let ghost oldv = self.entries@;
                self.entries.push((id, dtype));
                proof {
                    let newv = self.entries@;
                    let n = newv.len() - 1;
                    assert forall|p: int, q: int| 0 <= p < q < newv.len() implies newv[p].0@
                        != newv[q].0@ by {
                        if q < n {
                            assert(oldv[p].0@ != oldv[q].0@);
                        } else {
                            assert(!old(self).contains_name(id@));
                            assert(oldv[p].0@ != id@);
                        }
                    }
                    lemma_unique_entry(newv, n);
                    assert forall|name: Seq<char>| name != id@ implies self.contains_name(name)
                        == old(self).contains_name(name) by {
                        if old(self).contains_name(name) {
                            let j = choose|j: int| 0 <= j < oldv.len() && oldv[j].0@ == name;
                            assert(newv[j].0@ == name);
                        }
                        if self.contains_name(name) {
                            let j = choose|j: int| 0 <= j < newv.len() && newv[j].0@ == name;
                            assert(j != n);
                            assert(oldv[j].0@ == name);
                        }
                    }
                    assert forall|name: Seq<char>|
                        name != id@ && old(self).contains_name(name) implies self.dtype_of(name)
                        == old(self).dtype_of(name) by {
                        let j = choose|j: int| 0 <= j < oldv.len() && oldv[j].0@ == name;
                        lemma_unique_entry(newv, j);
                        lemma_unique_entry(oldv, j);
                    }
                }
            },
        }
    }

    /// The declared type of `id`, if any.
    pub fn get(&self, id: &ExternInputId) -> (r: Option<DataType>)
        requires
            self.wf(),
        ensures
            match r {
                Some(t) => self.contains_name(id@) && self.dtype_of(id@) == t,
                None => !self.contains_name(id@),
            },
    {
        let pos = self.position(id);
        match pos {
            Some(i) => {
                proof {
                    lemma_unique_entry(self.entries@, i as int);
                }
                Some(self.entries[i].1)
            },
            None => None,
        }
    }
}

/// In a list of uniquely named entries, the witness that `choose` picks for
/// a name is the entry at that name's index.
proof fn lemma_unique_entry(entries: Seq<(ExternInputId, DataType)>, i: int)
    requires
        0 <= i < entries.len(),
        forall|p: int, q: int| 0 <= p < q < entries.len() ==> entries[p].0@ != entries[q].0@,
    ensures
        (choose|j: int| 0 <= j < entries.len() && entries[j].0@ == entries[i].0@) == i,
{
    let j = choose|j: int| 0 <= j < entries.len() && entries[j].0@ == entries[i].0@;
    assert(0 <= j < entries.len() && entries[j].0@ == entries[i].0@);
    if j < i {
        assert(entries[j].0@ != entries[i].0@);
    } else if i < j {
        assert(entries[i].0@ != entries[j].0@);
    }
}

/// The evaluation context: a value for each named external input.
#[derive(Debug)]
pub struct ExternParameters {
    pub entries: Vec<(ExternInputId, Value)>,
}

impl ExternParameters {
    /// Names never repeat.
    pub open spec fn wf(&self) -> bool {
        forall|i: int, j: int|
            0 <= i < j < self.entries@.len() ==> self.entries@[i].0@ != self.entries@[j].0@
    }

    pub open spec fn contains_name(&self, name: Seq<char>) -> bool {
        exists|i: int| 0 <= i < self.entries@.len() && self.entries@[i].0@ == name
    }

    pub open spec fn value_of(&self, name: Seq<char>) -> Value {
        self.entries@[choose|i: int|
            0 <= i < self.entries@.len() && self.entries@[i].0@ == name].1
    }

    pub fn new() -> (r: Self)
        ensures
            r.wf(),
            forall|name: Seq<char>| !r.contains_name(name),
    {
        ExternParameters { entries: Vec::new() }
    }

    /// The inputs, in insertion order.
    pub fn inputs(&self) -> (r: &Vec<(ExternInputId, Value)>)
        ensures
            r@ == self.entries@,
    {
        &self.entries
    }

    fn position(&self, id: &ExternInputId) -> (r: Option<usize>)
        ensures
            match r {
                Some(i) => i < self.entries@.len() && self.entries@[i as int].0@ == id@,
                None => !self.contains_name(id@),
            },
    {
        let n = self.entries.len();
        let mut i: usize = 0;
        while i < n
            invariant
                0 <= i <= n,
                n == self.entries@.len(),
                forall|j: int| 0 <= j < i ==> self.entries@[j].0@ != id@,
            decreases n - i,
        {
            if self.entries[i].0.eq(id) {
                return Some(i);
            }
            i += 1;
        }
        None
    }

    /// Sets the value of `id`. A value already present under that name must
    /// have the same type as the new one; otherwise nothing changes and a
    /// type mismatch is reported.
    pub fn insert_input(&mut self, id: &ExternInputId, value: Value) -> (r: Result<
        (),
        EvalError,
    >)
        requires
            old(self).wf(),
        ensures
            final(self).wf(),
            match r {
                Ok(()) => {
                    &&& !(old(self).contains_name(id@) && old(self).value_of(id@).dtype_spec()
                        != value.dtype_spec())
                    &&& final(self).contains_name(id@)
                    &&& final(self).value_of(id@) == value
                    &&& forall|name: Seq<char>|
                        name != id@ ==> final(self).contains_name(name) == old(self).contains_name(
                            name,
                        )
                    &&& forall|name: Seq<char>|
                        name != id@ && old(self).contains_name(name) ==> final(self).value_of(name)
                            == old(self).value_of(name)
                },
                Err(e) => {
                    &&& e is TypeMismatch
                    &&& old(self).contains_name(id@)
                    &&& old(self).value_of(id@).dtype_spec() != value.dtype_spec()
                    &&& *final(self) == *old(self)
                },
            },
    {
        let pos = self.position(id);
        match pos {
            Some(i) => {
                proof {
                    lemma_unique_value_entry(self.entries@, i as int);
                }
                if self.entries[i].1.dtype() != value.dtype() {
                    return Err(EvalError::TypeMismatch);
                }
                let ghost oldv = self.entries@;
                self.entries.set(i, (id.clone(), value));
                proof {
                    let newv = self.entries@;
                    assert forall|p: int, q: int| 0 <= p < q < newv.len() implies newv[p].0@
                        != newv[q].0@ by {
                        assert(oldv[p].0@ != oldv[q].0@);
                    }
                    lemma_unique_value_entry(newv, i as int);
                    assert forall|name: Seq<char>| name != id@ implies self.contains_name(name)
                        == old(self).contains_name(name) by {
                        if old(self).contains_name(name) {
                            let j = choose|j: int| 0 <= j < oldv.len() && oldv[j].0@ == name;
                            assert(newv[j].0@ == name);
                        }
                        if self.contains_name(name) {
                            let j = choose|j: int| 0 <= j < newv.len() && newv[j].0@ == name;
                            assert(oldv[j].0@ == name);
                        }
                    }
                    assert forall|name: Seq<char>|
                        name != id@ && old(self).contains_name(name) implies self.value_of(name)
                        == old(self).value_of(name) by {
                        let j = choose|j: int| 0 <= j < oldv.len() && oldv[j].0@ == name;
                        lemma_unique_value_entry(newv, j);
                        lemma_unique_value_entry(oldv, j);
                    }
                }
                Ok(())
            },
            None => {
                let ghost oldv = self.entries@;
                self.entries.push((id.clone(), value));
                proof {
                    let newv = self.entries@;
                    let n = newv.len() - 1;
                    assert forall|p: int, q: int| 0 <= p < q < newv.len() implies newv[p].0@
                        != newv[q].0@ by {
                        if q < n {
                            assert(oldv[p].0@ != oldv[q].0@);
                        } else {
                            assert(!old(self).contains_name(id@));
                            assert(oldv[p].0@ != id@);
                        }
                    }
                    lemma_unique_value_entry(newv, n);
                    assert forall|name: Seq<char>| name != id@ implies self.contains_name(name)
                        == old(self).contains_name(name) by {
                        if old(self).contains_name(name) {
                            let j = choose|j: int| 0 <= j < oldv.len() && oldv[j].0@ == name;
                            assert(newv[j].0@ == name);
                        }
                        if self.contains_name(name) {
                            let j = choose|j: int| 0 <= j < newv.len() && newv[j].0@ == name;
                            assert(j != n);
                            assert(oldv[j].0@ == name);
                        }
                    }
                    assert forall|name: Seq<char>|
                        name != id@ && old(self).contains_name(name) implies self.value_of(name)
                        == old(self).value_of(name) by {
                        let j = choose|j: int| 0 <= j < oldv.len() && oldv[j].0@ == name;
                        lemma_unique_value_entry(newv, j);
                        lemma_unique_value_entry(oldv, j);
                    }
                }
                Ok(())
            },
        }
    }

    /// The value stored under `id`, if any.
    pub fn get(&self, id: &ExternInputId) -> (r: Option<&Value>)
        requires
            self.wf(),
        ensures
            match r {
                Some(v) => self.contains_name(id@) && self.value_of(id@) == *v,
                None => !self.contains_name(id@),
            },
    {
        let pos = self.position(id);
        match pos {
            Some(i) => {
                proof {
                    lemma_unique_value_entry(self.entries@, i as int);
                }
                Some(&self.entries[i].1)
            },
            None => None,
        }
    }
}

proof fn lemma_unique_value_entry(entries: Seq<(ExternInputId, Value)>, i: int)
    requires
        0 <= i < entries.len(),
        forall|p: int, q: int| 0 <= p < q < entries.len() ==> entries[p].0@ != entries[q].0@,
    ensures
        (choose|j: int| 0 <= j < entries.len() && entries[j].0@ == entries[i].0@) == i,
{
    let j = choose|j: int| 0 <= j < entries.len() && entries[j].0@ == entries[i].0@;
    assert(0 <= j < entries.len() && entries[j].0@ == entries[i].0@);
    if j < i {
        assert(entries[j].0@ != entries[i].0@);
    } else if i < j {
        assert(entries[i].0@ != entries[j].0@);
    }
}

} // verus!
