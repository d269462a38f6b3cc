use vstd::prelude::*;

verus! {

/// A file-system event as the watcher reports it, after its own debouncing.
pub enum WatchEvent {
    Create(String),
    Write(String),
    Remove(String),
    Rename(String, String),
    Rescan,
    Other,
}

/// What a batch of watcher events asks for: a full rescan, or the files to
/// (re)load and those to drop. No path is listed twice or in both lists.
pub struct WatchPlan {
    pub rescan: bool,
    pub updated: Vec<String>,
    pub removed: Vec<String>,
}

/// Index of the last `c` in `s`, or -1.
pub open spec fn last_index_of(s: Seq<char>, c: char) -> int
    decreases s.len(),
{
    if s.len() == 0 {
        -1
    } else if s.last() == c {
        s.len() - 1
    } else {
        last_index_of(s.drop_last(), c)
    }
}

/// The last component of a `/`-separated path.
pub open spec fn file_name(p: Seq<char>) -> Seq<char> {
    p.subrange(last_index_of(p, '/') + 1, p.len() as int)
}

/// The text after the last dot of the file name, where the dot does not open it.
pub open spec fn extension(p: Seq<char>) -> Option<Seq<char>> {
    let n = file_name(p);
    let d = last_index_of(n, '.');
    if d > 0 {
        Some(n.subrange(d + 1, n.len() as int))
    } else {
        None
    }
}

/// Script files: extension `hsp` or `as`.
pub open spec fn watched(p: Seq<char>) -> bool {
    extension(p) == Some(seq!['h', 's', 'p']) || extension(p) == Some(seq!['a', 's'])
}

fn find_last(s: &str, n: usize, from: usize, c: char) -> (r: Option<usize>)
    requires
        n == s@.len(),
        from <= n,
    ensures
        last_index_of(s@.subrange(from as int, n as int), c) == match r {
            Some(k) => k - from,
            None => -1,
        },
        r is Some ==> from <= r->0 < n,
{
    let ghost t = s@.subrange(from as int, n as int);
    let mut i = n;
    assert(t.subrange(0, (i - from) as int) =~= t);
    while i > from
        invariant
            from <= i <= n,
            n == s@.len(),
            t == s@.subrange(from as int, n as int),
            last_index_of(t.subrange(0, (i - from) as int), c) == last_index_of(t, c),
        decreases i,
    {
        let ghost u = t.subrange(0, (i - from) as int);
        assert(u.drop_last() =~= t.subrange(0, (i - 1 - from) as int));
        if s.get_char(i - 1) == c {
            assert(u.last() == c);
            return Some(i - 1);
        }
        i -= 1;
    }
    None
}

fn eq_chars_at(s: &str, from: usize, n: usize, lit: &Vec<char>) -> (r: bool)
    requires
        n == s@.len(),
        from <= n,
    ensures
        r == (s@.subrange(from as int, n as int) == lit@),
{
    if n - from != lit.len() {
        return false;
    }
    let mut k: usize = 0;
    while k < lit.len()
        invariant
            n == s@.len(),
            from <= n,
            n - from == lit@.len(),
            k <= lit@.len(),
            forall|q: int| 0 <= q < k ==> s@[from + q] == lit@[q],
        decreases lit@.len() - k,
    {
        if s.get_char(from + k) != lit[k] {
            assert(s@.subrange(from as int, n as int)[k as int] != lit@[k as int]);
            return false;
        }
        k += 1;
    }
    assert(s@.subrange(from as int, n as int) =~= lit@);
    true
}

/// Whether the watcher reports changes of this file.
pub fn file_ext_is_watched(path: &str) -> (r: bool)
    ensures
        r == watched(path@),
{
    let n = path.unicode_len();
    let start: usize = match find_last(path, n, 0, '/') {
        Some(k) => k + 1,
        None => 0,
    };
    assert(path@.subrange(0, n as int) =~= path@);
    let ghost name = file_name(path@);
    assert(name =~= path@.subrange(start as int, n as int));
    match find_last(path, n, start, '.') {
        Some(d) => {
            if d == start {
                return false;
            }
            assert(name.subrange(d - start + 1, name.len() as int) =~= path@.subrange(d + 1, n as int));
            let hsp: Vec<char> = vec!['h', 's', 'p'];
            let as_: Vec<char> = vec!['a', 's'];
            assert(hsp@ == seq!['h', 's', 'p']);
            assert(as_@ == seq!['a', 's']);
            eq_chars_at(path, d + 1, n, &hsp) || eq_chars_at(path, d + 1, n, &as_)
        },
        None => false,
    }
}

/// The file actions of one event: `true` to (re)load a path, `false` to drop it.
/// A rename drops its source and loads its destination. Unwatched paths are left
/// out.
pub open spec fn event_actions(e: WatchEvent) -> Seq<(Seq<char>, bool)> {
    match e {
        WatchEvent::Create(p) | WatchEvent::Write(p) => if watched(p@) {
            seq![(p@, true)]
        } else {
            Seq::empty()
        },
        WatchEvent::Remove(p) => if watched(p@) {
            seq![(p@, false)]
        } else {
            Seq::empty()
        },
        WatchEvent::Rename(a, b) => (if watched(a@) {
            seq![(a@, false)]
        } else {
            Seq::empty()
        }) + (if watched(b@) {
            seq![(b@, true)]
        } else {
            Seq::empty()
        }),
        _ => Seq::empty(),
    }
}

pub open spec fn all_actions(events: Seq<WatchEvent>) -> Seq<(Seq<char>, bool)>
    decreases events.len(),
{
    if events.len() == 0 {
        Seq::empty()
    } else {
        all_actions(events.drop_last()) + event_actions(events.last())
    }
}

/// For each path touched, its last action wins.
pub open spec fn final_state(actions: Seq<(Seq<char>, bool)>) -> Map<Seq<char>, bool>
    decreases actions.len(),
{
    if actions.len() == 0 {
        Map::empty()
    } else {
        final_state(actions.drop_last()).insert(actions.last().0, actions.last().1)
    }
}

pub open spec fn entries_match(v: Seq<(String, bool)>, m: Map<Seq<char>, bool>) -> bool {
    &&& forall|i: int, j: int|
        0 <= i < v.len() && 0 <= j < v.len() && i != j ==> (#[trigger] v[i]).0@ != (
        #[trigger] v[j]).0@
    &&& forall|i: int|
        0 <= i < v.len() ==> m.contains_key((#[trigger] v[i]).0@) && m[v[i].0@] == v[i].1
    &&& forall|p: Seq<char>|
        #[trigger] m.contains_key(p) ==> exists|i: int| 0 <= i < v.len() && (#[trigger] v[i]).0@ == p
}

pub open spec fn lists(v: Seq<String>, p: Seq<char>) -> bool {
    exists|i: int| 0 <= i < v.len() && (#[trigger] v[i])@ == p
}

pub open spec fn views_unique(v: Seq<String>) -> bool {
    forall|i: int, j: int|
        0 <= i < v.len() && 0 <= j < v.len() && i != j ==> (#[trigger] v[i])@ != (#[trigger] v[j])@
}

fn apply_action(entries: &mut Vec<(String, bool)>, path: String, load: bool, Ghost(m): Ghost<Map<Seq<char>, bool>>)
    requires
        entries_match(old(entries)@, m),
    ensures
        entries_match(final(entries)@, m.insert(path@, load)),
{
    let mut i: usize = 0;
    while i < entries.len()
        invariant
            i <= entries@.len(),
            entries_match(entries@, m),
            forall|k: int| 0 <= k < i ==> (#[trigger] entries@[k]).0@ != path@,
        decreases entries@.len() - i,
    {
        if entries[i].0 == path {
            let ghost old_v = entries@;
            let ghost pv = path@;
            entries.set(i, (path, load));
            proof {
                let v = entries@;
                let m2 = m.insert(pv, load);
                assert forall|p: Seq<char>| #[trigger] m2.contains_key(p) implies exists|k: int|
                    0 <= k < v.len() && (#[trigger] v[k]).0@ == p by {
                    if p == pv {
                        assert(v[i as int].0@ == p);
                    } else {
                        let k = choose|k: int| 0 <= k < old_v.len() && (#[trigger] old_v[k]).0@ == p;
                        assert(v[k].0@ == p);
                    }
                }
                assert forall|a: int, b: int|
                    0 <= a < v.len() && 0 <= b < v.len() && a != b implies (#[trigger] v[a]).0@ != (
                    #[trigger] v[b]).0@ by {
                    assert(old_v[a].0@ != old_v[b].0@);
                }
            }
            return;
        }
        i += 1;
    }
    let ghost old_v = entries@;
    let ghost pv = path@;
    entries.push((path, load));
    proof {
        let v = entries@;
        let m2 = m.insert(pv, load);
        assert forall|p: Seq<char>| #[trigger] m2.contains_key(p) implies exists|k: int|
            0 <= k < v.len() && (#[trigger] v[k]).0@ == p by {
            if p == pv {
                assert(v[old_v.len() as int].0@ == p);
            } else {
                let k = choose|k: int| 0 <= k < old_v.len() && (#[trigger] old_v[k]).0@ == p;
                assert(v[k].0@ == p);
            }
        }
        assert forall|i: int| 0 <= i < v.len() implies m2.contains_key((#[trigger] v[i]).0@) && m2[v[i].0@] == v[i].1 by {
            if i < old_v.len() {
                assert(v[i] == old_v[i]);
            }
        }
    }
}


proof fn lemma_state_push(a: Seq<(Seq<char>, bool)>, x: (Seq<char>, bool))
    ensures
        final_state(a + seq![x]) == final_state(a).insert(x.0, x.1),
{
    assert((a + seq![x]).drop_last() =~= a);
}

/// Folds a batch of watcher events into one plan: for each watched path the last
/// event decides whether it is loaded or dropped, so a burst of writes loads it
/// once and a removal followed by a re-creation loads it.
pub fn plan_watch_events(events: &Vec<WatchEvent>) -> (r: WatchPlan)
    ensures
        r.rescan == exists|i: int| 0 <= i < events@.len() && (#[trigger] events@[i]) is Rescan,
        views_unique(r.updated@),
        views_unique(r.removed@),
        forall|p: Seq<char>|
            #[trigger] lists(r.updated@, p) <==> (final_state(all_actions(events@)).contains_key(p)
                && final_state(all_actions(events@))[p]),
        forall|p: Seq<char>|
            #[trigger] lists(r.removed@, p) <==> (final_state(all_actions(events@)).contains_key(p)
                && !final_state(all_actions(events@))[p]),
{
    let mut rescan = false;
    let mut entries: Vec<(String, bool)> = Vec::new();
    let mut i: usize = 0;
    assert(events@.subrange(0, 0) =~= Seq::<WatchEvent>::empty());
    while i < events.len()
        invariant
            i <= events@.len(),
            entries_match(entries@, final_state(all_actions(events@.subrange(0, i as int)))),
            rescan == exists|k: int| 0 <= k < i && (#[trigger] events@[k]) is Rescan,
        decreases events@.len() - i,
    {
        let ghost before = all_actions(events@.subrange(0, i as int));
        assert(events@.subrange(0, i + 1).drop_last() =~= events@.subrange(0, i as int));
        assert(all_actions(events@.subrange(0, i + 1)) == before + event_actions(events@[i as int]));
        match &events[i] {
            WatchEvent::Create(p) | WatchEvent::Write(p) => {
                if file_ext_is_watched(p.as_str()) {
                    proof {
                        lemma_state_push(before, (p@, true));
                    }
                    apply_action(&mut entries, p.clone(), true, Ghost(final_state(before)));
                } else {
                    assert(before + event_actions(events@[i as int]) =~= before);
                }
            },
            WatchEvent::Remove(p) => {
                if file_ext_is_watched(p.as_str()) {
                    proof {
                        lemma_state_push(before, (p@, false));
                    }
                    apply_action(&mut entries, p.clone(), false, Ghost(final_state(before)));
                } else {
                    assert(before + event_actions(events@[i as int]) =~= before);
                }
            },
            WatchEvent::Rename(a, b) => {
                let ghost mid = before;
                if file_ext_is_watched(a.as_str()) {
                    proof {
                        lemma_state_push(before, (a@, false));
                    }
                    apply_action(&mut entries, a.clone(), false, Ghost(final_state(before)));
                    proof {
                        mid = before + seq![(a@, false)];
                    }
                }
                assert(mid =~= before + (if watched(a@) {
                    seq![(a@, false)]
                } else {
                    Seq::empty()
                }));
                if file_ext_is_watched(b.as_str()) {
                    proof {
                        lemma_state_push(mid, (b@, true));
                    }
                    apply_action(&mut entries, b.clone(), true, Ghost(final_state(mid)));
                    assert(mid + seq![(b@, true)] =~= before + event_actions(events@[i as int]));
                } else {
                    assert(mid =~= before + event_actions(events@[i as int]));
                }
            },
            WatchEvent::Rescan => {
                rescan = true;
                assert(before + event_actions(events@[i as int]) =~= before);
            },
            WatchEvent::Other => {
                assert(before + event_actions(events@[i as int]) =~= before);
            },
        }
        i += 1;
    }
    assert(events@.subrange(0, events@.len() as int) =~= events@);
    let ghost m = final_state(all_actions(events@));
    let mut updated: Vec<String> = Vec::new();
    let mut removed: Vec<String> = Vec::new();
    let ghost mut ui: Seq<int> = Seq::empty();
    let ghost mut ri: Seq<int> = Seq::empty();
    let mut k: usize = 0;
    while k < entries.len()
        invariant
            k <= entries@.len(),
            entries_match(entries@, m),
            ui.len() == updated@.len(),
            ri.len() == removed@.len(),
            forall|j: int|
                0 <= j < ui.len() ==> 0 <= #[trigger] ui[j] < k && entries@[ui[j]].1 && entries@[ui[j]].0@
                    == updated@[j]@,
            forall|j: int|
                0 <= j < ri.len() ==> 0 <= #[trigger] ri[j] < k && !entries@[ri[j]].1
                    && entries@[ri[j]].0@ == removed@[j]@,
            forall|q: int| 0 <= q < k && (#[trigger] entries@[q]).1 ==> lists(updated@, entries@[q].0@),
            forall|q: int| 0 <= q < k && !(#[trigger] entries@[q]).1 ==> lists(removed@, entries@[q].0@),
            views_unique(updated@),
            views_unique(removed@),
        decreases entries@.len() - k,
    {
        let (p, load) = (&entries[k].0, entries[k].1);
        let ghost pv = p@;
        proof {
            assert forall|j: int| 0 <= j < updated@.len() implies (#[trigger] updated@[j])@ != pv by {
                assert(ui[j] < k);
                assert(entries@[ui[j]].0@ != entries@[k as int].0@);
            }
            assert forall|j: int| 0 <= j < removed@.len() implies (#[trigger] removed@[j])@ != pv by {
                assert(ri[j] < k);
                assert(entries@[ri[j]].0@ != entries@[k as int].0@);
            }
        }
        if load {
            let ghost prev = updated@;
            updated.push(p.clone());
            proof {
                ui = ui.push(k as int);
                assert(updated@[prev.len() as int]@ == pv);
                assert forall|q: int| 0 <= q < k + 1 && (#[trigger] entries@[q]).1 implies lists(updated@, entries@[q].0@) by {
                    if q < k {
                        let j = choose|j: int| 0 <= j < prev.len() && (#[trigger] prev[j])@ == entries@[q].0@;
                        assert(updated@[j] == prev[j]);
                    } else {
                        assert(updated@[prev.len() as int]@ == entries@[q].0@);
                    }
                }
                assert forall|j: int| 0 <= j < ui.len() implies 0 <= #[trigger] ui[j] < k + 1 && entries@[ui[j]].1 && entries@[ui[j]].0@ == updated@[j]@ by {
                    if j < prev.len() {
                        assert(updated@[j] == prev[j]);
                    }
                }
            }
        } else {
            let ghost prev = removed@;
            removed.push(p.clone());
            proof {
                ri = ri.push(k as int);
                assert(removed@[prev.len() as int]@ == pv);
                assert forall|q: int| 0 <= q < k + 1 && !(#[trigger] entries@[q]).1 implies lists(removed@, entries@[q].0@) by {
                    if q < k {
                        let j = choose|j: int| 0 <= j < prev.len() && (#[trigger] prev[j])@ == entries@[q].0@;
                        assert(removed@[j] == prev[j]);
                    } else {
                        assert(removed@[prev.len() as int]@ == entries@[q].0@);
                    }
                }
                assert forall|j: int| 0 <= j < ri.len() implies 0 <= #[trigger] ri[j] < k + 1 && !entries@[ri[j]].1 && entries@[ri[j]].0@ == removed@[j]@ by {
                    if j < prev.len() {
                        assert(removed@[j] == prev[j]);
                    }
                }
            }
        }
        k += 1;
    }
    proof {
        assert forall|p: Seq<char>| #[trigger] lists(updated@, p) <==> (m.contains_key(p) && m[p]) by {
            if lists(updated@, p) {
                let j = choose|j: int| 0 <= j < updated@.len() && (#[trigger] updated@[j])@ == p;
                assert(m.contains_key(entries@[ui[j]].0@));
            }
            if m.contains_key(p) && m[p] {
                let q = choose|q: int| 0 <= q < entries@.len() && (#[trigger] entries@[q]).0@ == p;
                assert(entries@[q].1);
            }
        }
        assert forall|p: Seq<char>| #[trigger] lists(removed@, p) <==> (m.contains_key(p) && !m[p]) by {
            if lists(removed@, p) {
                let j = choose|j: int| 0 <= j < removed@.len() && (#[trigger] removed@[j])@ == p;
                assert(m.contains_key(entries@[ri[j]].0@));
            }
            if m.contains_key(p) && !m[p] {
                let q = choose|q: int| 0 <= q < entries@.len() && (#[trigger] entries@[q]).0@ == p;
                assert(!entries@[q].1);
            }
        }
    }
    WatchPlan { rescan, updated, removed }
}


/// A path that a batch only ever loads (any number of creations, writes and
/// rename targets, among events on other paths) ends up loaded; with the
/// plan's lists free of duplicates, it is loaded once and not dropped.
pub proof fn lemma_only_loads_end_loaded(events: Seq<WatchEvent>, p: Seq<char>)
    requires
        exists|k: int| 0 <= k < all_actions(events).len() && (#[trigger] all_actions(events)[k]).0 == p,
        forall|k: int| 0 <= k < all_actions(events).len() && (#[trigger] all_actions(events)[k]).0 == p
            ==> all_actions(events)[k].1,
    ensures
        final_state(all_actions(events)).contains_key(p),
        final_state(all_actions(events))[p],
{
    lemma_only_loads_actions(all_actions(events), p);
}

proof fn lemma_only_loads_actions(a: Seq<(Seq<char>, bool)>, p: Seq<char>)
    requires
        exists|k: int| 0 <= k < a.len() && (#[trigger] a[k]).0 == p,
        forall|k: int| 0 <= k < a.len() && (#[trigger] a[k]).0 == p ==> a[k].1,
    ensures
        final_state(a).contains_key(p),
        final_state(a)[p],
    decreases a.len(),
{
    let b = a.drop_last();
    if a.last().0 != p {
        let k = choose|k: int| 0 <= k < a.len() && (#[trigger] a[k]).0 == p;
        assert(k < a.len() - 1);
        assert(b[k] == a[k]);
        assert forall|j: int| 0 <= j < b.len() && (#[trigger] b[j]).0 == p implies b[j].1 by {
            assert(b[j] == a[j]);
        }
        lemma_only_loads_actions(b, p);
    } else {
        assert(a[a.len() - 1].1);
    }
}

/// Repeated writes to one watched path within a batch come to a single load of
/// that path and nothing else.
pub proof fn lemma_repeated_writes_load_once(events: Seq<WatchEvent>, p: Seq<char>)
    requires
        watched(p),
        events.len() == 3,
        forall|i: int| 0 <= i < 3 ==> (#[trigger] events[i]) is Write && events[i]->Write_0@ == p,
    ensures
        final_state(all_actions(events)) == map![p => true],
{
    let e0 = events.subrange(0, 1);
    let e1 = events.subrange(0, 2);
    assert(e1.drop_last() =~= e0);
    assert(events.drop_last() =~= e1);
    assert(e0.drop_last() =~= Seq::<WatchEvent>::empty());
    assert(events[0] is Write);
    assert(event_actions(events[0]) == seq![(p, true)]);
    assert(event_actions(events[1]) == seq![(p, true)]);
    assert(event_actions(events[2]) == seq![(p, true)]);
    assert(e0.last() == events[0]);
    assert(e1.last() == events[1]);
    assert(all_actions(Seq::<WatchEvent>::empty()) == Seq::<(Seq<char>, bool)>::empty());
    assert(all_actions(e0) =~= seq![(p, true)]);
    assert(all_actions(e1) =~= seq![(p, true), (p, true)]);
    assert(all_actions(events) =~= seq![(p, true), (p, true), (p, true)]);
    let a1 = seq![(p, true)];
    let a2 = seq![(p, true), (p, true)];
    let a = seq![(p, true), (p, true), (p, true)];
    assert(a.drop_last() =~= a2);
    assert(a2.drop_last() =~= a1);
    assert(a1.drop_last() =~= Seq::<(Seq<char>, bool)>::empty());
    assert(final_state(Seq::<(Seq<char>, bool)>::empty()) == Map::<Seq<char>, bool>::empty());
    assert(a1.last() == (p, true));
    assert(final_state(a1) =~= map![p => true]);
    assert(final_state(a2) =~= map![p => true]);
    assert(final_state(a) =~= map![p => true]);
}

/// A watched path removed and then created again within a batch is loaded, not
/// dropped.
pub proof fn lemma_remove_then_create_loads(events: Seq<WatchEvent>, p: Seq<char>)
    requires
        watched(p),
        events.len() == 2,
        events[0] is Remove && events[0]->Remove_0@ == p,
        events[1] is Create && events[1]->Create_0@ == p,
    ensures
        final_state(all_actions(events)) == map![p => true],
{
    let e0 = events.subrange(0, 1);
    assert(events.drop_last() =~= e0);
    assert(e0.drop_last() =~= Seq::<WatchEvent>::empty());
    assert(event_actions(events[0]) == seq![(p, false)]);
    assert(event_actions(events[1]) == seq![(p, true)]);
    assert(e0.last() == events[0]);
    assert(all_actions(Seq::<WatchEvent>::empty()) == Seq::<(Seq<char>, bool)>::empty());
    assert(all_actions(e0) =~= seq![(p, false)]);
    assert(all_actions(events) =~= seq![(p, false), (p, true)]);
    let a1 = seq![(p, false)];
    let a = seq![(p, false), (p, true)];
    assert(a.drop_last() =~= a1);
    assert(a1.drop_last() =~= Seq::<(Seq<char>, bool)>::empty());
    assert(final_state(Seq::<(Seq<char>, bool)>::empty()) == Map::<Seq<char>, bool>::empty());
    assert(a1.last() == (p, false));
    assert(final_state(a1) =~= map![p => false]);
    assert(final_state(a) =~= map![p => true]);
}

} // verus!
