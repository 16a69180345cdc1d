use vstd::prelude::*;

verus! {

/// One entry of the process table as read from the operating system: the
/// entry's name (a pid in decimal for a process) and the text of its status
/// record, or `None` where it could not be read.
pub struct ProcEntry {
    pub name: Vec<u8>,
    pub stat: Option<Vec<u8>>,
}

/// The field of the status record, counted from 0, that holds the parent pid.
pub const PARENT_FIELD: usize = 3;

pub open spec fn is_ws(b: u8) -> bool {
    b == 32 || (9 <= b && b <= 13)
}

pub open spec fn is_digit(b: u8) -> bool {
    48 <= b && b <= 57
}

/// The value of a string of decimal digits.
pub open spec fn dec_value(s: Seq<u8>) -> int
    decreases s.len(),
{
    if s.len() == 0 {
        0
    } else {
        dec_value(s.drop_last()) * 10 + (s.last() - 48)
    }
}

pub open spec fn is_decimal(s: Seq<u8>) -> bool {
    s.len() > 0 && forall|i: int| 0 <= i < s.len() ==> is_digit(#[trigger] s[i])
}

/// A pid written in decimal digits, no sign, that fits in an `i32`.
pub open spec fn spec_parse_pid(s: Seq<u8>) -> Option<i32> {
    if is_decimal(s) && dec_value(s) <= i32::MAX {
        Some(dec_value(s) as i32)
    } else {
        None
    }
}

/// A field (a maximal run of bytes other than whitespace) starts at `j`.
pub open spec fn starts_field(s: Seq<u8>, j: int) -> bool {
    &&& 0 <= j < s.len()
    &&& !is_ws(s[j])
    &&& (j == 0 || is_ws(s[j - 1]))
}

/// How many fields start before position `j`.
pub open spec fn fields_before(s: Seq<u8>, j: int) -> nat
    decreases j,
{
    if j <= 0 {
        0
    } else {
        fields_before(s, j - 1) + if starts_field(s, j - 1) {
            1nat
        } else {
            0nat
        }
    }
}

/// Field `n` of `s` spans the positions `a` up to `e` (exclusive).
pub open spec fn is_field(s: Seq<u8>, n: nat, a: int, e: int) -> bool {
    &&& starts_field(s, a)
    &&& fields_before(s, a) == n
    &&& a < e <= s.len()
    &&& forall|k: int| a <= k < e ==> !is_ws(#[trigger] s[k])
    &&& (e == s.len() || is_ws(s[e]))
}

/// Field `n` of `s`, if `s` has that many fields.
pub open spec fn spec_field(s: Seq<u8>, n: nat) -> Option<Seq<u8>> {
    if exists|a: int, e: int| is_field(s, n, a, e) {
        let (a, e) = choose|a: int, e: int| is_field(s, n, a, e);
        Some(s.subrange(a, e))
    } else {
        None
    }
}

/// The parent pid that a status record gives.
pub open spec fn spec_parent(stat: Seq<u8>) -> Option<i32> {
    match spec_field(stat, PARENT_FIELD as nat) {
        Some(f) => spec_parse_pid(f),
        None => None,
    }
}

/// The pid and parent pid of an entry, where both can be read.
pub open spec fn spec_entry(e: ProcEntry) -> Option<(i32, i32)> {
    match (spec_parse_pid(e.name@), e.stat) {
        (Some(pid), Some(st)) => match spec_parent(st@) {
            Some(pp) => Some((pid, pp)),
            None => None,
        },
        _ => None,
    }
}

pub open spec fn is_child_entry(e: ProcEntry, parent: i32) -> bool {
    match spec_entry(e) {
        Some((pid, pp)) => pp == parent && pid != parent,
        None => false,
    }
}

/// The pids, in table order, of the entries that name `parent` as parent.
pub open spec fn children_in(es: Seq<ProcEntry>, parent: i32) -> Seq<i32>
    decreases es.len(),
{
    if es.len() == 0 {
        Seq::empty()
    } else {
        let rest = children_in(es.drop_last(), parent);
        if is_child_entry(es.last(), parent) {
            rest.push(spec_entry(es.last())->Some_0.0)
        } else {
            rest
        }
    }
}

proof fn lemma_dec_value_nonneg(s: Seq<u8>)
    requires
        forall|i: int| 0 <= i < s.len() ==> is_digit(#[trigger] s[i]),
    ensures
        dec_value(s) >= 0,
    decreases s.len(),
{
    if s.len() > 0 {
        lemma_dec_value_nonneg(s.drop_last());
    }
}

proof fn lemma_dec_value_prefix(s: Seq<u8>, k: int)
    requires
        forall|i: int| 0 <= i < s.len() ==> is_digit(#[trigger] s[i]),
        0 <= k <= s.len(),
    ensures
        dec_value(s.take(k)) <= dec_value(s),
    decreases s.len(),
{
    if k < s.len() {
        let d = s.drop_last();
        lemma_dec_value_prefix(d, k);
        assert(d.take(k) =~= s.take(k));
        lemma_dec_value_nonneg(d);
    } else {
        assert(s.take(k) =~= s);
    }
}

/// Reads a pid written in decimal digits; `None` for anything else or for a
/// value beyond `i32::MAX`.
pub fn parse_pid(s: &[u8]) -> (r: Option<i32>)
    ensures
        r == spec_parse_pid(s@),
{
    if s.len() == 0 {
        return None;
    }
    let mut v: i64 = 0;
    let mut i: usize = 0;
    while i < s.len()
        invariant
            0 <= i <= s.len(),
            0 <= v <= i32::MAX,
            v == dec_value(s@.take(i as int)),
            forall|k: int| 0 <= k < i ==> is_digit(#[trigger] s@[k]),
        decreases s.len() - i,
    {
        let b = s[i];
        if b < 48 || b > 57 {
            assert(!is_digit(s@[i as int]));
            return None;
        }
        assert(s@.take(i + 1).drop_last() =~= s@.take(i as int));
        v = v * 10 + (b - 48) as i64;
        i = i + 1;
        if v > i32::MAX as i64 {
            proof {
                if is_decimal(s@) {
                    lemma_dec_value_prefix(s@, i as int);
                }
            }
            return None;
        }
    }
    assert(s@.take(i as int) =~= s@);
    Some(v as i32)
}

proof fn lemma_fields_before_mono(s: Seq<u8>, i: int, j: int)
    requires
        0 <= i <= j,
    ensures
        fields_before(s, i) <= fields_before(s, j),
    decreases j - i,
{
    if i < j {
        lemma_fields_before_mono(s, i, j - 1);
    }
}

proof fn lemma_field_unique(s: Seq<u8>, n: nat, a: int, e: int, a2: int, e2: int)
    requires
        is_field(s, n, a, e),
        is_field(s, n, a2, e2),
    ensures
        a == a2,
        e == e2,
{
    if a < a2 {
        lemma_fields_before_mono(s, a + 1, a2);
    } else if a2 < a {
        lemma_fields_before_mono(s, a2 + 1, a);
    }
    if e < e2 {
        assert(!is_ws(s[e]));
    } else if e2 < e {
        assert(!is_ws(s[e2]));
    }
}

/// Locates field `n` of `s`: its start and its end (exclusive).
pub fn find_field(s: &[u8], n: usize) -> (r: Option<(usize, usize)>)
    ensures
        match r {
            Some((a, e)) => is_field(s@, n as nat, a as int, e as int),
            None => !exists|a: int, e: int| is_field(s@, n as nat, a, e),
        },
{
    let mut count: usize = 0;
    let mut i: usize = 0;
    while i < s.len()
        invariant
            0 <= i <= s.len(),
            count == fields_before(s@, i as int),
            count <= n,
        decreases s.len() - i,
    {
        let b = s[i];
        let ws = b == 32 || (9 <= b && b <= 13);
        let starts = !ws && (i == 0 || {
            let p = s[i - 1];
            p == 32 || (9 <= p && p <= 13)
        });
        if starts {
            if count == n {
                let mut e: usize = i + 1;
                while e < s.len() && !(s[e] == 32 || (9 <= s[e] && s[e] <= 13))
                    invariant
                        i < e <= s.len(),
                        forall|k: int| i <= k < e ==> !is_ws(#[trigger] s@[k]),
                    decreases s.len() - e,
                {
                    e = e + 1;
                }
                return Some((i, e));
            }
            count = count + 1;
        }
        i = i + 1;
    }
    proof {
        assert forall|a: int, e: int| !is_field(s@, n as nat, a, e) by {
            if is_field(s@, n as nat, a, e) {
                lemma_fields_before_mono(s@, a + 1, s.len() as int);
            }
        }
    }
    None
}

/// The parent pid that a status record gives in its field `PARENT_FIELD`.
pub fn parent_pid(stat: &[u8]) -> (r: Option<i32>)
    ensures
        r == spec_parent(stat@),
{
    match find_field(stat, PARENT_FIELD) {
        Some((a, e)) => {
            proof {
                let (a2, e2) = choose|a2: int, e2: int| is_field(stat@, PARENT_FIELD as nat, a2, e2);
                lemma_field_unique(stat@, PARENT_FIELD as nat, a as int, e as int, a2, e2);
            }
            let f = vstd::slice::slice_subrange(stat, a, e);
            parse_pid(f)
        },
        None => None,
    }
}


/// The pid and parent pid of an entry; `None` where its name is no pid or its
/// status record is missing or malformed.
pub fn read_entry(e: &ProcEntry) -> (r: Option<(i32, i32)>)
    ensures
        r == spec_entry(*e),
{
    let pid = match parse_pid(e.name.as_slice()) {
        Some(p) => p,
        None => return None,
    };
    match &e.stat {
        Some(st) => match parent_pid(st.as_slice()) {
            Some(pp) => Some((pid, pp)),
            None => None,
        },
        None => None,
    }
}

/// The pids of the processes whose parent is `parent`, in table order.
/// Entries that cannot be read are skipped; `parent` itself is never listed.
pub fn list_children(parent: i32, entries: &Vec<ProcEntry>) -> (r: Vec<i32>)
    ensures
        r@ == children_in(entries@, parent),
{
    let mut r: Vec<i32> = Vec::new();
    let mut i: usize = 0;
    while i < entries.len()
        invariant
            0 <= i <= entries@.len(),
            r@ == children_in(entries@.take(i as int), parent),
        decreases entries@.len() - i,
    {
        assert(entries@.take(i + 1).drop_last() =~= entries@.take(i as int));
        match read_entry(&entries[i]) {
            Some((pid, pp)) => {
                if pp == parent && pid != parent {
                    r.push(pid);
                }
            },
            None => {},
        }
        i = i + 1;
    }
    assert(entries@.take(i as int) =~= entries@);
    r
}

/// A scan never lists the parent itself, and lists nothing where no entry
/// names that parent.
pub proof fn children_exclude_parent(es: Seq<ProcEntry>, parent: i32)
    ensures
        forall|k: int| 0 <= k < children_in(es, parent).len() ==> #[trigger] children_in(es, parent)[k] != parent,
        (forall|k: int| 0 <= k < es.len() ==> !(#[trigger] is_child_entry(es[k], parent))) ==> children_in(es, parent).len() == 0,
    decreases es.len(),
{
    if es.len() > 0 {
        children_exclude_parent(es.drop_last(), parent);
        let rest = children_in(es.drop_last(), parent);
        if is_child_entry(es.last(), parent) {
            let c = children_in(es, parent);
            assert(c == rest.push(spec_entry(es.last())->Some_0.0));
            assert forall|k: int| 0 <= k < c.len() implies #[trigger] c[k] != parent by {
                if k < rest.len() {
                    assert(c[k] == rest[k]);
                }
            }
        }
        if forall|k: int| 0 <= k < es.len() ==> !(#[trigger] is_child_entry(es[k], parent)) {
            assert forall|k: int| 0 <= k < es.drop_last().len() implies !(#[trigger] is_child_entry(es.drop_last()[k], parent)) by {
                assert(es.drop_last()[k] == es[k]);
            }
            assert(!is_child_entry(es[es.len() - 1], parent));
        }
    }
}

} // verus!
