//! Stars: short texts that a device pins to moments in time.
//!
//! A star is keyed by its device and its time. Adding one that exists already
//! changes nothing and says so, so that a repeated request is harmless. The
//! stars are kept in order of time.
use vstd::prelude::*;

verus! {

/// A star as handed out: its time, in milliseconds, and its text.
#[derive(Debug)]
pub struct Star {
    pub time: i64,
    pub text: String,
}

#[derive(Debug)]
struct StarEntry {
    device: String,
    time: i64,
    text: String,
}

/// A stored star as a mathematical value.
pub struct StarModel {
    pub device: Seq<char>,
    pub time: i64,
    pub text: Seq<char>,
}

impl StarEntry {
    closed spec fn model(&self) -> StarModel {
        StarModel { device: self.device@, time: self.time, text: self.text@ }
    }
}

/// Whether `s` is the star of `device` at `time`.
pub open spec fn is_key(s: StarModel, device: Seq<char>, time: i64) -> bool {
    s.device == device && s.time == time
}

/// Whether a star of `device` at `time` is stored.
pub open spec fn has_star(ss: Seq<StarModel>, device: Seq<char>, time: i64) -> bool {
    exists|i: int| 0 <= i < ss.len() && is_key(#[trigger] ss[i], device, time)
}

/// The stars in order of time, and one star for each device and time.
pub open spec fn stars_wf(ss: Seq<StarModel>) -> bool {
    &&& forall|i: int, j: int| 0 <= i < j < ss.len() ==> (#[trigger] ss[i]).time <= (#[trigger] ss[j]).time
    &&& forall|i: int, j: int|
        0 <= i < ss.len() && 0 <= j < ss.len() && i != j ==> !is_key(
            #[trigger] ss[i],
            (#[trigger] ss[j]).device,
            ss[j].time,
        )
}

/// `ss` with `s` placed after every star that is not later than it.
pub open spec fn insert_sorted(ss: Seq<StarModel>, s: StarModel) -> Seq<StarModel>
    decreases ss.len(),
{
    if ss.len() == 0 {
        seq![s]
    } else if ss.last().time <= s.time {
        ss.push(s)
    } else {
        insert_sorted(ss.drop_last(), s).push(ss.last())
    }
}

/// The stars after adding the star of `device` at `time` with `text`, unless
/// one with that device and time is there already.
pub open spec fn insert_model(ss: Seq<StarModel>, device: Seq<char>, time: i64, text: Seq<char>) -> Seq<
    StarModel,
> {
    if has_star(ss, device, time) {
        ss
    } else {
        insert_sorted(ss, StarModel { device, time, text })
    }
}

/// The stars after removing the last one of `device` at `time`, if any.
pub open spec fn delete_model(ss: Seq<StarModel>, device: Seq<char>, time: i64) -> Seq<StarModel>
    decreases ss.len(),
{
    if ss.len() == 0 {
        ss
    } else if is_key(ss.last(), device, time) {
        ss.drop_last()
    } else {
        delete_model(ss.drop_last(), device, time).push(ss.last())
    }
}

/// The times and texts of the stars of `device` before `time`, in order.
pub open spec fn before_model(ss: Seq<StarModel>, device: Seq<char>, time: i64) -> Seq<(i64, Seq<char>)>
    decreases ss.len(),
{
    if ss.len() == 0 {
        Seq::empty()
    } else {
        let rest = before_model(ss.drop_last(), device, time);
        if ss.last().device == device && ss.last().time < time {
            rest.push((ss.last().time, ss.last().text))
        } else {
            rest
        }
    }
}

/// The times and texts of `v`.
pub open spec fn star_models(v: Seq<Star>) -> Seq<(i64, Seq<char>)> {
    v.map_values(|s: Star| (s.time, s.text@))
}

proof fn lemma_insert_at(ss: Seq<StarModel>, s: StarModel, k: int)
    requires
        0 <= k <= ss.len(),
        k == 0 || ss[k - 1].time <= s.time,
        forall|j: int| k <= j < ss.len() ==> (#[trigger] ss[j]).time > s.time,
    ensures
        insert_sorted(ss, s) == ss.insert(k, s),
    decreases ss.len(),
{
    if ss.len() == 0 {
        assert(ss.insert(k, s) =~= seq![s]);
    } else if k == ss.len() {
        assert(ss.insert(k, s) =~= ss.push(s));
    } else {
        lemma_insert_at(ss.drop_last(), s, k);
        assert(ss.drop_last().insert(k, s).push(ss.last()) =~= ss.insert(k, s));
    }
}

proof fn lemma_delete_at(ss: Seq<StarModel>, device: Seq<char>, time: i64, k: int)
    requires
        0 <= k < ss.len(),
        is_key(ss[k], device, time),
        forall|j: int| k < j < ss.len() ==> !is_key(#[trigger] ss[j], device, time),
    ensures
        delete_model(ss, device, time) == ss.remove(k),
    decreases ss.len(),
{
    if k == ss.len() - 1 {
        assert(ss.remove(k) =~= ss.drop_last());
    } else {
        lemma_delete_at(ss.drop_last(), device, time, k);
        assert(ss.drop_last().remove(k).push(ss.last()) =~= ss.remove(k));
    }
}

proof fn lemma_delete_absent(ss: Seq<StarModel>, device: Seq<char>, time: i64)
    requires
        !has_star(ss, device, time),
    ensures
        delete_model(ss, device, time) == ss,
    decreases ss.len(),
{
    if ss.len() > 0 {
        lemma_absent_in_prefix(ss, device, time);
        lemma_delete_absent(ss.drop_last(), device, time);
        assert(ss.drop_last().push(ss.last()) =~= ss);
    }
}

proof fn lemma_absent_in_prefix(ss: Seq<StarModel>, device: Seq<char>, time: i64)
    requires
        ss.len() > 0,
        !has_star(ss, device, time),
    ensures
        !has_star(ss.drop_last(), device, time),
        !is_key(ss.last(), device, time),
{
    assert(!is_key(ss[ss.len() - 1], device, time));
    if has_star(ss.drop_last(), device, time) {
        let i = choose|i: int| 0 <= i < ss.len() - 1 && is_key(#[trigger] ss.drop_last()[i], device, time);
        assert(is_key(ss[i], device, time));
    }
}

proof fn lemma_inserted_is_there(ss: Seq<StarModel>, s: StarModel)
    ensures
        has_star(insert_sorted(ss, s), s.device, s.time),
    decreases ss.len(),
{
    let r = insert_sorted(ss, s);
    if ss.len() == 0 {
        assert(is_key(r[0], s.device, s.time));
    } else if ss.last().time <= s.time {
        assert(is_key(r[ss.len() as int], s.device, s.time));
    } else {
        lemma_inserted_is_there(ss.drop_last(), s);
        let p = insert_sorted(ss.drop_last(), s);
        let i = choose|i: int| 0 <= i < p.len() && is_key(#[trigger] p[i], s.device, s.time);
        assert(r[i] == p[i]);
        assert(is_key(r[i], s.device, s.time));
    }
}

/// Adding a star twice has the effect of adding it once: after the first
/// request the star is there, and the second finds it and changes nothing.
pub proof fn lemma_insert_idempotent(
    ss: Seq<StarModel>,
    device: Seq<char>,
    time: i64,
    text: Seq<char>,
    again: Seq<char>,
)
    ensures
        has_star(insert_model(ss, device, time, text), device, time),
        insert_model(insert_model(ss, device, time, text), device, time, again) == insert_model(
            ss,
            device,
            time,
            text,
        ),
{
    if !has_star(ss, device, time) {
        lemma_inserted_is_there(ss, StarModel { device, time, text });
    }
}

/// Deleting a star that was just added gives back the stars as they were.
pub proof fn lemma_delete_undoes_insert(ss: Seq<StarModel>, device: Seq<char>, time: i64, text: Seq<char>)
    requires
        !has_star(ss, device, time),
    ensures
        delete_model(insert_model(ss, device, time, text), device, time) == ss,
    decreases ss.len(),
{
    let s = StarModel { device, time, text };
    if ss.len() == 0 {
        assert(seq![s].drop_last() =~= ss);
    } else if ss.last().time <= time {
        assert(ss.push(s).drop_last() =~= ss);
    } else {
        lemma_absent_in_prefix(ss, device, time);
        lemma_delete_undoes_insert(ss.drop_last(), device, time, text);
        let p = insert_sorted(ss.drop_last(), s);
        assert(p.push(ss.last()).drop_last() =~= p);
        assert(ss.drop_last().push(ss.last()) =~= ss);
    }
}

/// The stars of all devices.
pub struct StarStore {
    entries: Vec<StarEntry>,
}

impl View for StarStore {
    type V = Seq<StarModel>;

    closed spec fn view(&self) -> Seq<StarModel> {
        self.entries@.map_values(|e: StarEntry| e.model())
    }
}

impl StarStore {
    /// The stars keep their invariant.
    pub open spec fn wf(&self) -> bool {
        stars_wf(self@)
    }

    /// A store without stars.
    pub fn new() -> (r: StarStore)
        ensures
            r.wf(),
            r@ == Seq::<StarModel>::empty(),
    {
        let r = StarStore { entries: Vec::new() };
        assert(r@ =~= Seq::<StarModel>::empty());
        r
    }

    /// The position of the last star of `device` at `time`.
    fn position(&self, device: &String, time: i64) -> (r: Option<usize>)
        ensures
            r is None ==> !has_star(self@, device@, time),
            r matches Some(k) ==> k < self@.len() && is_key(self@[k as int], device@, time) && forall|j: int|
                k < j < self@.len() ==> !is_key(#[trigger] self@[j], device@, time),
    {
        let ghost ss = self@;
        let mut k: usize = self.entries.len();
        while k > 0
            invariant
                k <= ss.len(),
                ss == self@,
                forall|j: int| k <= j < ss.len() ==> !is_key(#[trigger] ss[j], device@, time),
            decreases k,
        {
            let e = &self.entries[k - 1];
            if e.time == time && e.device == *device {
                return Some(k - 1);
            }
            k = k - 1;
        }
        None
    }

    /// Adds the star of `device` at `time` with `text`. Where that device has
    /// a star at that time already, nothing changes and the result is false.
    pub fn insert_star(&mut self, device: &String, time: i64, text: String) -> (inserted: bool)
        requires
            old(self).wf(),
        ensures
            final(self).wf(),
            final(self)@ == insert_model(old(self)@, device@, time, text@),
            inserted == !has_star(old(self)@, device@, time),
    {
        let ghost ss = self@;
        if self.position(device, time).is_some() {
            return false;
        }
        let ghost s = StarModel { device: device@, time, text: text@ };
        let mut k: usize = self.entries.len();
        while k > 0 && self.entries[k - 1].time > time
            invariant
                k <= ss.len(),
                ss == self@,
                forall|j: int| k <= j < ss.len() ==> (#[trigger] ss[j]).time > time,
            decreases k,
        {
            k = k - 1;
        }
        self.entries.insert(k, StarEntry { device: device.clone(), time, text });
        proof {
            lemma_insert_at(ss, s, k as int);
            assert(self@ =~= ss.insert(k as int, s));
            let ns = self@;
            assert forall|i: int, j: int| 0 <= i < j < ns.len() implies (#[trigger] ns[i]).time
                <= (#[trigger] ns[j]).time by {
                let oi = if i < k { i } else { i - 1 };
                let oj = if j < k { j } else { j - 1 };
                if i != k && j != k {
                    assert(ss[oi].time <= ss[oj].time);
                }
            }
            assert forall|i: int, j: int|
                0 <= i < ns.len() && 0 <= j < ns.len() && i != j implies !is_key(
                #[trigger] ns[i],
                (#[trigger] ns[j]).device,
                ns[j].time,
            ) by {
                let oi = if i < k { i } else { i - 1 };
                let oj = if j < k { j } else { j - 1 };
                if i == k {
                    assert(!is_key(ss[oj], device@, time));
                } else if j == k {
                    assert(!is_key(ss[oi], device@, time));
                } else {
                    assert(!is_key(ss[oi], ss[oj].device, ss[oj].time));
                }
            }
        }
        true
    }

    /// Removes the star of `device` at `time`; the result says whether there
    /// was one.
    pub fn delete_star(&mut self, device: &String, time: i64) -> (deleted: bool)
        requires
            old(self).wf(),
        ensures
            final(self).wf(),
            final(self)@ == delete_model(old(self)@, device@, time),
            deleted == has_star(old(self)@, device@, time),
    {
        let ghost ss = self@;
        match self.position(device, time) {
            None => {
                proof {
                    lemma_delete_absent(ss, device@, time);
                }
                false
            },
            Some(k) => {
                let _ = self.entries.remove(k);
                proof {
                    lemma_delete_at(ss, device@, time, k as int);
                    assert(self@ =~= ss.remove(k as int));
                    let ns = self@;
                    assert forall|i: int, j: int| 0 <= i < j < ns.len() implies (#[trigger] ns[i]).time
                        <= (#[trigger] ns[j]).time by {
                        let oi = if i < k { i } else { i + 1 };
                        let oj = if j < k { j } else { j + 1 };
                        assert(ss[oi].time <= ss[oj].time);
                    }
                    assert forall|i: int, j: int|
                        0 <= i < ns.len() && 0 <= j < ns.len() && i != j implies !is_key(
                        #[trigger] ns[i],
                        (#[trigger] ns[j]).device,
                        ns[j].time,
                    ) by {
                        let oi = if i < k { i } else { i + 1 };
                        let oj = if j < k { j } else { j + 1 };
                        assert(!is_key(ss[oi], ss[oj].device, ss[oj].time));
                    }
                }
                true
            },
        }
    }

    /// The stars of `device` before `time`, in order of time.
    pub fn stars_before(&self, device: &String, time: i64) -> (r: Vec<Star>)
        ensures
            star_models(r@) == before_model(self@, device@, time),
    {
        let ghost ss = self@;
        let mut r: Vec<Star> = Vec::new();
        let mut i: usize = 0;
        while i < self.entries.len()
            invariant
                i <= ss.len(),
                ss == self@,
                star_models(r@) == before_model(ss.subrange(0, i as int), device@, time),
            decreases ss.len() - i,
        {
            let e = &self.entries[i];
            proof {
                assert(ss.subrange(0, i as int + 1).drop_last() =~= ss.subrange(0, i as int));
            }
            if e.time < time && e.device == *device {
                let ghost prev = r@;
                r.push(Star { time: e.time, text: e.text.clone() });
                proof {
                    assert(star_models(r@) =~= star_models(prev).push((e.time, e.text@)));
                }
            }
            i = i + 1;
        }
        assert(ss.subrange(0, ss.len() as int) =~= ss);
        r
    }
}

} // verus!
