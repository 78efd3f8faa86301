//! The viewer's device menu: which bound devices it offers, in what order,
//! how each row reads, and the loading and switching state behind it.
use crate::power::DeviceInfo;
use crate::text::{
    chars_of, lemma_text_le_antisymmetric, lemma_text_le_total, lemma_text_le_transitive, push_str,
    str_eq, string_of, text_le, text_le_exec,
};
use vstd::prelude::*;

verus! {

// ---- Ordering ----------------------------------------------------------------
/// The menu's order: the device being viewed first, then by alias, then by
/// id (the key `(id != viewing, alias, id)`).
pub open spec fn device_le(a: DeviceInfo, b: DeviceInfo, viewing: Seq<char>) -> bool {
    let fa = a.device_id@ != viewing;
    let fb = b.device_id@ != viewing;
    if fa != fb {
        !fa
    } else if a.alias@ != b.alias@ {
        text_le(a.alias@, b.alias@)
    } else {
        text_le(a.device_id@, b.device_id@)
    }
}

/// `s` with `x` placed after every element not above it; for a sorted `s`
/// this is where a stable sort puts a later element.
pub open spec fn insert_sorted(s: Seq<DeviceInfo>, x: DeviceInfo, viewing: Seq<char>) -> Seq<
    DeviceInfo,
>
    decreases s.len(),
{
    if s.len() == 0 {
        seq![x]
    } else if !device_le(s.last(), x, viewing) {
        insert_sorted(s.drop_last(), x, viewing).push(s.last())
    } else {
        s.push(x)
    }
}

/// The stable sort of `s` by the menu's order.
pub open spec fn sorted_devices(s: Seq<DeviceInfo>, viewing: Seq<char>) -> Seq<DeviceInfo>
    decreases s.len(),
{
    if s.len() == 0 {
        s
    } else {
        insert_sorted(sorted_devices(s.drop_last(), viewing), s.last(), viewing)
    }
}

/// `s` without an element whose id repeats the id just before it.
pub open spec fn dedup_ids(s: Seq<DeviceInfo>) -> Seq<DeviceInfo>
    decreases s.len(),
{
    if s.len() <= 1 {
        s
    } else if s[s.len() - 2].device_id@ == s.last().device_id@ {
        dedup_ids(s.drop_last())
    } else {
        dedup_ids(s.drop_last()).push(s.last())
    }
}

/// A device the menu may offer: online, Windows or macOS, not the machine
/// this client runs on, with an id the account service accepts.
pub open spec fn pickable(d: DeviceInfo, this_device: Seq<char>) -> bool {
    &&& d.connected
    &&& (d.platform == 1 || d.platform == 4)
    &&& d.device_id@ != this_device
    &&& d.device_id_issue is None
}

pub open spec fn spec_pick(list: Seq<DeviceInfo>, this_device: Seq<char>, viewing: Seq<char>) -> Seq<
    DeviceInfo,
> {
    dedup_ids(sorted_devices(list.filter(|d: DeviceInfo| pickable(d, this_device)), viewing))
}


fn device_le_exec(a: &DeviceInfo, b: &DeviceInfo, viewing: &str) -> (r: bool)
    ensures
        r == device_le(*a, *b, viewing@),
{
    let fa = !str_eq(a.device_id.as_str(), viewing);
    let fb = !str_eq(b.device_id.as_str(), viewing);
    if fa != fb {
        !fa
    } else if !str_eq(a.alias.as_str(), b.alias.as_str()) {
        text_le_exec(a.alias.as_str(), b.alias.as_str())
    } else {
        text_le_exec(a.device_id.as_str(), b.device_id.as_str())
    }
}

/// Where `insert_sorted` puts `x`: after the scan from the back stops.
proof fn lemma_insert_at(s: Seq<DeviceInfo>, x: DeviceInfo, viewing: Seq<char>, p: int)
    requires
        0 <= p <= s.len(),
        forall|q: int| p <= q < s.len() ==> !device_le(#[trigger] s[q], x, viewing),
        p == 0 || device_le(s[p - 1], x, viewing),
    ensures
        insert_sorted(s, x, viewing) == s.insert(p, x),
    decreases s.len(),
{
    if s.len() == 0 {
        assert(s.insert(p, x) =~= seq![x]);
    } else if p == s.len() {
        assert(s.insert(p, x) =~= s.push(x));
    } else {
        assert(!device_le(s.last(), x, viewing));
        lemma_insert_at(s.drop_last(), x, viewing, p);
        assert(s.insert(p, x) =~= s.drop_last().insert(p, x).push(s.last()));
    }
}

fn pickable_exec(d: &DeviceInfo, this_device: &str) -> (b: bool)
    ensures
        b == pickable(*d, this_device@),
{
    d.connected && (d.platform == 1 || d.platform == 4) && !str_eq(d.device_id.as_str(), this_device)
        && d.device_id_issue.is_none()
}

/// The devices the menu offers, from the account's bound devices: the
/// pickable ones, the viewed device first and the rest by alias and id, with
/// a device listed twice in a row kept once.
pub fn pick_devices(list: Vec<DeviceInfo>, this_device: &str, viewing: &str) -> (r: Vec<DeviceInfo>)
    ensures
        r@ == spec_pick(list@, this_device@, viewing@),
{
    let ghost pred = |d: DeviceInfo| pickable(d, this_device@);
    let ghost all = list@;
    let mut rest = list;
    let total: usize = rest.len();
    let mut sorted: Vec<DeviceInfo> = Vec::new();
    let mut taken: usize = 0;
    while rest.len() > 0
        invariant
            all.len() == taken + rest@.len(),
            all.len() == total,
            rest@ == all.skip(taken as int),
            pred == (|d: DeviceInfo| pickable(d, this_device@)),
            sorted@ == sorted_devices(all.take(taken as int).filter(pred), viewing@),
        decreases rest@.len(),
    {
        let d = rest.remove(0);
        proof {
            reveal(Seq::filter);
            assert(all.take(taken + 1).drop_last() =~= all.take(taken as int));
            assert(all.take(taken + 1).last() == d);
            assert(rest@ =~= all.skip(taken + 1));
        }
        if pickable_exec(&d, this_device) {
            let ghost before = sorted@;
            let mut p: usize = sorted.len();
            while p > 0 && !device_le_exec(&sorted[p - 1], &d, viewing)
                invariant
                    p <= sorted@.len(),
                    sorted@ == before,
                    forall|q: int| p <= q < sorted@.len() ==> !device_le(#[trigger] sorted@[q], d, viewing@),
                decreases p,
            {
                p -= 1;
            }
            proof {
                lemma_insert_at(before, d, viewing@, p as int);
                let f = all.take(taken + 1).filter(pred);
                assert(f == all.take(taken as int).filter(pred).push(d));
                assert(f.drop_last() =~= all.take(taken as int).filter(pred));
            }
            sorted.insert(p, d);
        }
        taken += 1;
    }
    proof {
        assert(all.take(taken as int) =~= all);
    }
    let ghost s = sorted@;
    let count: usize = sorted.len();
    let mut out: Vec<DeviceInfo> = Vec::new();
    let mut i: usize = 0;
    let mut source = sorted;
    let mut last_id: Option<String> = None;
    while source.len() > 0
        invariant
            s.len() == i + source@.len(),
            s.len() == count,
            source@ == s.skip(i as int),
            out@ == dedup_ids(s.take(i as int)),
            i == 0 <==> last_id is None,
            i > 0 ==> (last_id matches Some(l) && l@ == s[i - 1].device_id@),
        decreases source@.len(),
    {
        let d = source.remove(0);
        proof {
            assert(source@ =~= s.skip(i + 1));
            assert(s.take(i + 1).drop_last() =~= s.take(i as int));
            assert(s.take(i + 1).last() == d);
        }
        let repeat = match &last_id {
            Some(l) => str_eq(l.as_str(), d.device_id.as_str()),
            None => false,
        };
        last_id = Some(d.device_id.clone());
        proof {
            if i > 0 {
                assert(s.take(i + 1)[i - 1] == s[i - 1]);
            }
        }
        if !repeat {
            out.push(d);
        }
        i += 1;
    }
    proof {
        assert(s.take(i as int) =~= s);
    }
    out
}


// ---- Laws of the menu order --------------------------------------------------



proof fn lemma_device_le_total(a: DeviceInfo, b: DeviceInfo, v: Seq<char>)
    ensures
        device_le(a, b, v) || device_le(b, a, v),
{
    lemma_text_le_total(a.alias@, b.alias@);
    lemma_text_le_total(a.device_id@, b.device_id@);
}

proof fn lemma_device_le_transitive(a: DeviceInfo, b: DeviceInfo, c: DeviceInfo, v: Seq<char>)
    requires
        device_le(a, b, v),
        device_le(b, c, v),
    ensures
        device_le(a, c, v),
{
    let fa = a.device_id@ != v;
    let fb = b.device_id@ != v;
    let fc = c.device_id@ != v;
    if fa == fb && fb == fc {
        if a.alias@ != b.alias@ && b.alias@ != c.alias@ {
            lemma_text_le_transitive(a.alias@, b.alias@, c.alias@);
            if a.alias@ == c.alias@ {
                lemma_text_le_antisymmetric(a.alias@, b.alias@);
            }
        }
        if a.alias@ == b.alias@ && b.alias@ == c.alias@ {
            lemma_text_le_transitive(a.device_id@, b.device_id@, c.device_id@);
        }
    }
}

/// Sorted by the menu's order.
pub open spec fn in_menu_order(s: Seq<DeviceInfo>, v: Seq<char>) -> bool {
    forall|i: int, j: int| 0 <= i < j < s.len() ==> device_le(#[trigger] s[i], #[trigger] s[j], v)
}

proof fn lemma_insert_contents(s: Seq<DeviceInfo>, x: DeviceInfo, v: Seq<char>)
    ensures
        insert_sorted(s, x, v).len() == s.len() + 1,
        forall|i: int|
            0 <= i < insert_sorted(s, x, v).len() ==> #[trigger] insert_sorted(s, x, v)[i] == x
                || s.contains(insert_sorted(s, x, v)[i]),
    decreases s.len(),
{
    if s.len() > 0 && !device_le(s.last(), x, v) {
        lemma_insert_contents(s.drop_last(), x, v);
        let r = insert_sorted(s, x, v);
        assert forall|i: int| 0 <= i < r.len() implies #[trigger] r[i] == x || s.contains(r[i]) by {
            if i < r.len() - 1 {
                let q = insert_sorted(s.drop_last(), x, v);
                assert(r[i] == q[i]);
                if q[i] != x {
                    let k = choose|k: int| 0 <= k < s.drop_last().len() && s.drop_last()[k] == q[i];
                    assert(s[k] == q[i]);
                }
            } else {
                assert(s[s.len() - 1] == r[i]);
            }
        }
    } else if s.len() > 0 {
        let r = insert_sorted(s, x, v);
        assert forall|i: int| 0 <= i < r.len() implies #[trigger] r[i] == x || s.contains(r[i]) by {
            if i < s.len() {
                assert(s[i] == r[i]);
            }
        }
    }
}

proof fn lemma_insert_sorted_order(s: Seq<DeviceInfo>, x: DeviceInfo, v: Seq<char>)
    requires
        in_menu_order(s, v),
    ensures
        in_menu_order(insert_sorted(s, x, v), v),
    decreases s.len(),
{
    let r = insert_sorted(s, x, v);
    if s.len() == 0 {
    } else if !device_le(s.last(), x, v) {
        let q = insert_sorted(s.drop_last(), x, v);
        assert(in_menu_order(s.drop_last(), v));
        lemma_insert_sorted_order(s.drop_last(), x, v);
        lemma_insert_contents(s.drop_last(), x, v);
        lemma_device_le_total(s.last(), x, v);
        assert forall|i: int, j: int| 0 <= i < j < r.len() implies device_le(
            #[trigger] r[i],
            #[trigger] r[j],
            v,
        ) by {
            if j == r.len() - 1 {
                assert(r[j] == s.last());
                assert(r[i] == q[i]);
                if q[i] != x {
                    let k = choose|k: int| 0 <= k < s.drop_last().len() && s.drop_last()[k] == q[i];
                    assert(s[k] == q[i]);
                    assert(device_le(s[k], s[s.len() - 1], v));
                }
            } else {
                assert(r[i] == q[i] && r[j] == q[j]);
            }
        }
    } else {
        assert forall|i: int, j: int| 0 <= i < j < r.len() implies device_le(
            #[trigger] r[i],
            #[trigger] r[j],
            v,
        ) by {
            if j == r.len() - 1 {
                if i < s.len() - 1 {
                    assert(device_le(s[i], s[s.len() - 1], v));
                    lemma_device_le_transitive(s[i], s[s.len() - 1], x, v);
                }
            } else {
                assert(r[i] == s[i] && r[j] == s[j]);
            }
        }
    }
}

proof fn lemma_sorted_order(s: Seq<DeviceInfo>, v: Seq<char>)
    ensures
        in_menu_order(sorted_devices(s, v), v),
    decreases s.len(),
{
    if s.len() > 0 {
        lemma_sorted_order(s.drop_last(), v);
        lemma_insert_sorted_order(sorted_devices(s.drop_last(), v), s.last(), v);
    }
}

proof fn lemma_dedup_facts(s: Seq<DeviceInfo>)
    ensures
        forall|i: int| 0 <= i < dedup_ids(s).len() ==> s.contains(#[trigger] dedup_ids(s)[i]),
        s.len() > 0 ==> dedup_ids(s).len() > 0 && dedup_ids(s).last().device_id@ == s.last().device_id@,
        dedup_ids(s).len() <= s.len(),
    decreases s.len(),
{
    if s.len() > 1 {
        let p = s.drop_last();
        lemma_dedup_facts(p);
        let d = dedup_ids(s);
        assert forall|i: int| 0 <= i < d.len() implies s.contains(#[trigger] d[i]) by {
            if i < dedup_ids(p).len() {
                assert(d[i] == dedup_ids(p)[i]);
                let k = choose|k: int| 0 <= k < p.len() && p[k] == dedup_ids(p)[i];
                assert(s[k] == p[k]);
            } else {
                assert(d[i] == s[s.len() - 1]);
            }
        }
    } else if s.len() == 1 {
        assert(dedup_ids(s)[0] == s[0]);
    }
}

proof fn lemma_dedup_order(s: Seq<DeviceInfo>, v: Seq<char>)
    requires
        in_menu_order(s, v),
    ensures
        in_menu_order(dedup_ids(s), v),
        forall|i: int|
            0 <= i < dedup_ids(s).len() - 1 ==> (#[trigger] dedup_ids(s)[i]).device_id@ != dedup_ids(
                s,
            )[i + 1].device_id@,
    decreases s.len(),
{
    if s.len() > 1 {
        let p = s.drop_last();
        assert(in_menu_order(p, v));
        lemma_dedup_order(p, v);
        lemma_dedup_facts(p);
        let d = dedup_ids(s);
        let dp = dedup_ids(p);
        if s[s.len() - 2].device_id@ != s.last().device_id@ {
            assert forall|i: int, j: int| 0 <= i < j < d.len() implies device_le(
                #[trigger] d[i],
                #[trigger] d[j],
                v,
            ) by {
                if j == d.len() - 1 {
                    let k = choose|k: int| 0 <= k < p.len() && p[k] == dp[i];
                    assert(s[k] == d[i]);
                    assert(device_le(s[k], s[s.len() - 1], v));
                } else {
                    assert(d[i] == dp[i] && d[j] == dp[j]);
                }
            }
            assert forall|i: int| 0 <= i < d.len() - 1 implies (#[trigger] d[i]).device_id@
                != d[i + 1].device_id@ by {
                if i == d.len() - 2 {
                    assert(d[i] == dp.last());
                } else {
                    assert(d[i] == dp[i] && d[i + 1] == dp[i + 1]);
                }
            }
        }
    }
}

/// The menu lists devices in its order — the device being viewed first,
/// then by alias and id — offers only pickable devices, and never lists the
/// same device twice in a row.
pub proof fn lemma_menu_order(list: Seq<DeviceInfo>, this_device: Seq<char>, viewing: Seq<char>)
    ensures
        ({
            let r = spec_pick(list, this_device, viewing);
            &&& in_menu_order(r, viewing)
            &&& forall|i: int| 0 <= i < r.len() - 1 ==> (#[trigger] r[i]).device_id@ != r[i + 1].device_id@
            &&& forall|k: int| 0 <= k < r.len() && (#[trigger] r[k]).device_id@ == viewing ==> r[0].device_id@ == viewing
        }),
{
    let f = list.filter(|d: DeviceInfo| pickable(d, this_device));
    let s = sorted_devices(f, viewing);
    lemma_sorted_order(f, viewing);
    lemma_dedup_order(s, viewing);
    let r = dedup_ids(s);
    assert forall|k: int| 0 <= k < r.len() && (#[trigger] r[k]).device_id@ == viewing implies r[0].device_id@
        == viewing by {
        if k > 0 {
            assert(device_le(r[0], r[k], viewing));
        }
    }
}

// ---- Rows ------------------------------------------------------------------
/// Why a row cannot be chosen.
#[derive(Clone, Copy, Debug, PartialEq, Eq, Structural)]
pub enum Unavailable {
    /// `"暂不可连接"`: the device does not accept remote control now.
    NotConnectable,
    /// `"使用中"`: someone else is controlling it.
    InUse,
}

pub open spec fn spec_unavailable(d: DeviceInfo, selected: bool) -> Option<Unavailable> {
    if !d.controlled_support || !d.controllable {
        Some(Unavailable::NotConnectable)
    } else if d.participants != 0 && !selected {
        Some(Unavailable::InUse)
    } else {
        None
    }
}

pub fn unavailable(d: &DeviceInfo, selected: bool) -> (r: Option<Unavailable>)
    ensures
        r == spec_unavailable(*d, selected),
{
    if !d.controlled_support || !d.controllable {
        Some(Unavailable::NotConnectable)
    } else if d.participants != 0 && !selected {
        Some(Unavailable::InUse)
    } else {
        None
    }
}

/// A device is usable exactly when it accepts remote control and, unless it
/// is the device being viewed, nobody else is controlling it; the viewed
/// device is never reported as in use.
pub proof fn lemma_unavailable_reasons(d: DeviceInfo, selected: bool)
    ensures
        spec_unavailable(d, selected) is None <==> (d.controlled_support && d.controllable && (
        selected || d.participants == 0)),
        selected ==> spec_unavailable(d, selected) != Some(Unavailable::InUse),
        !d.controlled_support || !d.controllable ==> spec_unavailable(d, selected) == Some(
            Unavailable::NotConnectable,
        ),
{
}

pub open spec fn alias_count(devices: Seq<DeviceInfo>, alias: Seq<char>, k: int) -> nat
    decreases k,
{
    if k <= 0 {
        0
    } else {
        alias_count(devices, alias, k - 1) + if devices[k - 1].alias@ == alias {
            1nat
        } else {
            0nat
        }
    }
}

/// The number of bytes UTF-8 takes for `c`.
pub open spec fn utf8_width(c: char) -> int {
    if (c as u32) < 0x80 {
        1
    } else if (c as u32) < 0x800 {
        2
    } else if (c as u32) < 0x10000 {
        3
    } else {
        4
    }
}

/// Whether the last `n` UTF-8 bytes of `s` start at a character boundary.
pub open spec fn tail_on_boundary(s: Seq<char>, n: int) -> bool
    decreases s.len(),
{
    if n == 0 {
        true
    } else if n < 0 || s.len() == 0 {
        false
    } else {
        tail_on_boundary(s.drop_last(), n - utf8_width(s.last()))
    }
}

/// The characters making up the last `n` UTF-8 bytes of `s`.
pub open spec fn byte_tail(s: Seq<char>, n: int) -> Seq<char>
    decreases s.len(),
{
    if n <= 0 || s.len() == 0 {
        Seq::empty()
    } else {
        byte_tail(s.drop_last(), n - utf8_width(s.last())).push(s.last())
    }
}

/// A row's label: the alias (the id where the alias is empty), followed by
/// the last four bytes of the id where another device in the menu has the
/// same alias.
pub open spec fn spec_row_label(devices: Seq<DeviceInfo>, d: DeviceInfo) -> Seq<char> {
    let name = if d.alias@.len() == 0 {
        d.device_id@
    } else {
        d.alias@
    };
    if alias_count(devices, d.alias@, devices.len() as int) > 1 {
        name + seq![' ', '·', ' '] + byte_tail(d.device_id@, 4)
    } else {
        name
    }
}

fn utf8_width_exec(c: char) -> (w: i32)
    ensures
        w == utf8_width(c),
{
    let v = c as u32;
    if v < 0x80 {
        1
    } else if v < 0x800 {
        2
    } else if v < 0x10000 {
        3
    } else {
        4
    }
}

/// The label of `d`'s row among `devices`. Where the id is shown, its last
/// four bytes must start at a character boundary (an id of at least four
/// bytes; a cut inside a character cannot be taken).
pub fn row_label(devices: &[DeviceInfo], d: &DeviceInfo) -> (s: String)
    requires
        alias_count(devices@, d.alias@, devices@.len() as int) > 1 ==> tail_on_boundary(
            d.device_id@,
            4,
        ),
    ensures
        s@ == spec_row_label(devices@, *d),
{
    let mut count: usize = 0;
    let mut k: usize = 0;
    while k < devices.len()
        invariant
            k <= devices@.len(),
            count == alias_count(devices@, d.alias@, k as int),
            count <= k,
        decreases devices@.len() - k,
    {
        if str_eq(devices[k].alias.as_str(), d.alias.as_str()) {
            count += 1;
        }
        k += 1;
    }
    let name: &str = if d.alias.as_str().is_empty() {
        d.device_id.as_str()
    } else {
        d.alias.as_str()
    };
    let mut out = chars_of(name);
    if count > 1 {
        push_str(&mut out, " · ");
        proof {
            reveal_strlit(" · ");
        }
        let id = chars_of(d.device_id.as_str());
        let mut j: usize = id.len();
        let mut rest: i32 = 4;
        assert(id@.take(j as int) =~= id@);
        assert(id@.skip(j as int) =~= Seq::<char>::empty());
        while rest > 0
            invariant
                j <= id@.len(),
                -3 <= rest <= 4,
                tail_on_boundary(id@.take(j as int), rest as int),
                byte_tail(id@, 4) == byte_tail(id@.take(j as int), rest as int) + id@.skip(j as int),
            decreases j,
        {
            let ghost p = id@.take(j as int);
            let c = id[j - 1];
            proof {
                assert(p.drop_last() =~= id@.take(j - 1));
                assert(p.last() == c);
                assert(id@.skip(j - 1) =~= seq![c] + id@.skip(j as int));
            }
            rest = rest - utf8_width_exec(c);
            j -= 1;
            proof {
                assert(byte_tail(id@.take(j as int), rest as int).push(c) + id@.skip(j + 1) =~= byte_tail(
                    id@.take(j as int),
                    rest as int,
                ) + id@.skip(j as int));
            }
        }
        let ghost head = out@;
        let mut m: usize = j;
        while m < id.len()
            invariant
                j <= m <= id@.len(),
                out@ == head + id@.subrange(j as int, m as int),
            decreases id@.len() - m,
        {
            out.push(id[m]);
            assert(id@.subrange(j as int, m + 1) =~= id@.subrange(j as int, m as int).push(id@[m as int]));
            m += 1;
        }
        assert(id@.subrange(j as int, id@.len() as int) =~= id@.skip(j as int));
        assert(byte_tail(id@.take(j as int), 0) =~= Seq::<char>::empty());
        assert(byte_tail(id@, 4) =~= id@.skip(j as int));
    }
    string_of(out.as_slice())
}

// ---- Loading and switching state ------------------------------------------
/// Why refreshing the device list failed.
pub enum RefreshError {
    /// The account service answered with an error.
    Service(String),
    /// It did not answer in time.
    Timeout,
}

/// The menu's state, shared with the refresh task.
pub struct PickerState {
    pub devices: Vec<DeviceInfo>,
    pub loading: bool,
    pub switching: bool,
    pub error: Option<String>,
}

impl PickerState {
    pub fn new() -> (s: Self)
        ensures
            s.devices@.len() == 0,
            !s.loading,
            !s.switching,
            s.error is None,
    {
        PickerState { devices: Vec::new(), loading: false, switching: false, error: None }
    }

    /// Starts a refresh unless one is running or a switch is under way;
    /// returns whether the list must be fetched.
    pub fn begin_refresh(&mut self) -> (fetch: bool)
        ensures
            fetch == !(old(self).loading || old(self).switching),
            fetch ==> final(self).loading && final(self).error is None && final(self).devices@
                == old(self).devices@ && final(self).switching == old(self).switching,
            !fetch ==> final(self).loading == old(self).loading && final(self).switching == old(
                self,
            ).switching && final(self).error == old(self).error && final(self).devices@ == old(
                self,
            ).devices@,
    {
        if self.loading || self.switching {
            return false;
        }
        self.loading = true;
        self.error = None;
        true
    }

    /// Records the fetched list (or the failure) of a refresh.
    pub fn finish_refresh(
        &mut self,
        result: Result<Vec<DeviceInfo>, RefreshError>,
        this_device: &str,
        viewing: &str,
    )
        ensures
            !final(self).loading,
            final(self).switching == old(self).switching,
            match result {
                Ok(list) => final(self).devices@ == spec_pick(list@, this_device@, viewing@)
                    && final(self).error == old(self).error,
                Err(RefreshError::Service(e)) => final(self).devices@ == old(self).devices@
                    && (final(self).error matches Some(m) && m@ == "获取设备失败："@ + e@),
                Err(RefreshError::Timeout) => final(self).devices@ == old(self).devices@
                    && (final(self).error matches Some(m) && m@ == "获取设备超时，请重试"@),
            },
    {
        self.loading = false;
        match result {
            Ok(list) => {
                self.devices = pick_devices(list, this_device, viewing);
            },
            Err(RefreshError::Service(e)) => {
                let mut m = chars_of("获取设备失败：");
                push_str(&mut m, e.as_str());
                self.error = Some(string_of(m.as_slice()));
            },
            Err(RefreshError::Timeout) => {
                self.error = Some(string_of(chars_of("获取设备超时，请重试").as_slice()));
            },
        }
    }

    /// Starts switching to a device unless a switch is under way; returns
    /// whether the switch request must be sent.
    pub fn begin_switch(&mut self) -> (send: bool)
        ensures
            send == !old(self).switching,
            final(self).switching,
            final(self).loading == old(self).loading,
            final(self).devices@ == old(self).devices@,
            send ==> final(self).error is None,
            !send ==> final(self).error == old(self).error,
    {
        if self.switching {
            return false;
        }
        self.switching = true;
        self.error = None;
        true
    }

    /// Whether the row of `device` can be clicked while `current` is being
    /// viewed: not the current device, not unavailable, and the menu neither
    /// loading nor switching.
    pub fn row_enabled(&self, device: &DeviceInfo, current: &str) -> (b: bool)
        ensures
            b == (device.device_id@ != current@ && spec_unavailable(*device, false) is None
                && !self.loading && !self.switching),
    {
        let selected = str_eq(device.device_id.as_str(), current);
        !selected && unavailable(device, selected).is_none() && !self.loading && !self.switching
    }

    /// A click on the row of `device` while `current` is being viewed:
    /// where the row is enabled, a switch begins and the request must be
    /// sent (returns `true`); the current device's row, unavailable rows and
    /// rows of a loading or switching menu never send and change nothing.
    pub fn click_row(&mut self, device: &DeviceInfo, current: &str) -> (send: bool)
        ensures
            send == (device.device_id@ != current@ && spec_unavailable(*device, false) is None
                && !old(self).loading && !old(self).switching),
            send ==> final(self).switching && final(self).error is None && final(self).loading
                == old(self).loading && final(self).devices@ == old(self).devices@,
            !send ==> final(self).switching == old(self).switching && final(self).loading == old(
                self,
            ).loading && final(self).error == old(self).error && final(self).devices@ == old(
                self,
            ).devices@,
    {
        if !self.row_enabled(device, current) {
            return false;
        }
        self.begin_switch()
    }

    /// The switch ended in failure, with `message` for the user.
    pub fn failed(&mut self, message: String)
        ensures
            !final(self).switching,
            final(self).error == Some(message),
            final(self).loading == old(self).loading,
            final(self).devices@ == old(self).devices@,
    {
        self.switching = false;
        self.error = Some(message);
    }

    /// The switch request could not be handed to the viewer.
    pub fn send_failed(&mut self)
        ensures
            !final(self).switching,
            (final(self).error matches Some(m) && m@ == "连接已结束，请重新打开观看窗口"@),
            final(self).loading == old(self).loading,
            final(self).devices@ == old(self).devices@,
    {
        self.switching = false;
        self.error = Some(string_of(chars_of("连接已结束，请重新打开观看窗口").as_slice()));
    }
}

} // verus!
