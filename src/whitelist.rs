use vstd::prelude::*;
use crate::error::Error;
use crate::types::{ensure_root, Origin};

verus! {

/// Byte-wise equality of two byte strings.
pub fn bytes_eq(a: &Vec<u8>, b: &Vec<u8>) -> (r: bool)
    ensures
        r == (a@ == b@),
{
    if a.len() != b.len() {
        return false;
    }
    let mut i: usize = 0;
    while i < a.len()
        invariant
            a@.len() == b@.len(),
            0 <= i <= a@.len(),
            forall|j: int| 0 <= j < i ==> a@[j] == b@[j],
        decreases a@.len() - i,
    {
        if a[i] != b[i] {
            return false;
        }
        i = i + 1;
    }
    assert(a@ =~= b@);
    true
}

/// A copy of a byte string.
pub fn copy_bytes(a: &Vec<u8>) -> (r: Vec<u8>)
    ensures
        r@ == a@,
{
    let mut r: Vec<u8> = Vec::new();
    let mut i: usize = 0;
    while i < a.len()
        invariant
            0 <= i <= a@.len(),
            r@ == a@.subrange(0, i as int),
        decreases a@.len() - i,
    {
        r.push(a[i]);
        i = i + 1;
        assert(r@ =~= a@.subrange(0, i as int));
    }
    assert(r@ =~= a@);
    r
}

#[derive(Clone, Debug, PartialEq)]
pub enum Event {
    UrlAdded { url: Vec<u8> },
    UrlRemoved { url: Vec<u8> },
}

pub open spec fn is_add_of(e: Event, u: Seq<u8>) -> bool {
    match e {
        Event::UrlAdded { url } => url@ == u,
        _ => false,
    }
}

pub open spec fn is_remove_of(e: Event, u: Seq<u8>) -> bool {
    match e {
        Event::UrlRemoved { url } => url@ == u,
        _ => false,
    }
}

/// The set of URLs that a sequence of add and remove events leaves behind.
pub open spec fn replay(evs: Seq<Event>) -> Set<Seq<u8>>
    decreases evs.len(),
{
    if evs.len() == 0 {
        Set::empty()
    } else {
        let prev = replay(evs.drop_last());
        match evs.last() {
            Event::UrlAdded { url } => prev.insert(url@),
            Event::UrlRemoved { url } => prev.remove(url@),
        }
    }
}

/// `u` was added at some point and not removed after that.
pub open spec fn added_and_not_removed(evs: Seq<Event>, u: Seq<u8>) -> bool {
    exists|i: int|
        0 <= i < evs.len() && #[trigger] is_add_of(evs[i], u) && forall|j: int|
            i < j < evs.len() ==> !#[trigger] is_remove_of(evs[j], u)
}

pub open spec fn url_views(urls: Seq<Vec<u8>>) -> Seq<Seq<u8>> {
    urls.map_values(|u: Vec<u8>| u@)
}

/// The set of permitted source URLs, changed only by governance.
pub struct Whitelist {
    pub urls: Vec<Vec<u8>>,
    pub max_url_length: usize,
    pub events: Vec<Event>,
}

impl View for Whitelist {
    type V = Set<Seq<u8>>;

    open spec fn view(&self) -> Set<Seq<u8>> {
        url_views(self.urls@).to_set()
    }
}

impl Whitelist {
    pub open spec fn wf(&self) -> bool {
        &&& forall|i: int, j: int|
            0 <= i < self.urls@.len() && 0 <= j < self.urls@.len() && i != j
                ==> self.urls@[i]@ != self.urls@[j]@
        &&& forall|i: int| 0 <= i < self.urls@.len() ==> self.urls@[i]@.len() <= self.max_url_length
        &&& self@ == replay(self.events@)
    }

    pub fn new(max_url_length: usize) -> (r: Whitelist)
        ensures
            r.wf(),
            r@ == Set::<Seq<u8>>::empty(),
            r.max_url_length == max_url_length,
            r.events@.len() == 0,
    {
        let r = Whitelist { urls: Vec::new(), max_url_length, events: Vec::new() };
        assert(r@ =~= Set::<Seq<u8>>::empty());
        r
    }

    fn position(&self, url: &Vec<u8>) -> (r: Option<usize>)
        ensures
            match r {
                Some(i) => i < self.urls@.len() && self.urls@[i as int]@ == url@ && self@.contains(url@),
                None => !self@.contains(url@),
            },
    {
        let mut i: usize = 0;
        while i < self.urls.len()
            invariant
                0 <= i <= self.urls@.len(),
                forall|j: int| 0 <= j < i ==> self.urls@[j]@ != url@,
            decreases self.urls@.len() - i,
        {
            if bytes_eq(&self.urls[i], url) {
                assert(url_views(self.urls@)[i as int] == url@);
                return Some(i);
            }
            i = i + 1;
        }
        proof {
            if self@.contains(url@) {
                let k = choose|k: int|
                    0 <= k < self.urls@.len() && #[trigger] url_views(self.urls@)[k] == url@;
                assert(self.urls@[k]@ == url@);
            }
        }
        None
    }

    /// Whether `url` is whitelisted; a URL over the length bound is refused.
    pub fn is_whitelisted(&self, url: &Vec<u8>) -> (r: Result<bool, Error>)
        ensures
            r == (if url@.len() > self.max_url_length {
                Err(Error::UrlTooLong)
            } else {
                Ok(self@.contains(url@))
            }),
    {
        if url.len() > self.max_url_length {
            return Err(Error::UrlTooLong);
        }
        Ok(self.position(url).is_some())
    }

    /// Adds `url`; only the root origin may.
    pub fn add_url(&mut self, origin: Origin, url: Vec<u8>) -> (r: Result<(), Error>)
        requires
            old(self).wf(),
        ensures
            final(self).wf(),
            final(self).max_url_length == old(self).max_url_length,
            r == (if !(origin is Root) {
                Err(Error::BadOrigin)
            } else if url@.len() > old(self).max_url_length {
                Err(Error::UrlTooLong)
            } else if old(self)@.contains(url@) {
                Err(Error::UrlAlreadyWhitelisted)
            } else {
                Ok(())
            }),
            r is Ok ==> final(self)@ == old(self)@.insert(url@),
            r is Ok ==> final(self).events@ == old(self).events@.push(Event::UrlAdded { url }),
            r is Err ==> final(self)@ == old(self)@ && final(self).events@ == old(self).events@,
    {
        if ensure_root(origin).is_err() {
            return Err(Error::BadOrigin);
        }
        if url.len() > self.max_url_length {
            return Err(Error::UrlTooLong);
        }
        if self.position(&url).is_some() {
            return Err(Error::UrlAlreadyWhitelisted);
        }
        let ghost before = self.urls@;
        self.urls.push(copy_bytes(&url));
        self.events.push(Event::UrlAdded { url });
        proof {
            assert(url_views(self.urls@) =~= url_views(before).push(self.urls@.last()@));
            assert forall|i: int| 0 <= i < before.len() implies before[i]@ != url@ by {
                if before[i]@ == url@ {
                    assert(url_views(before)[i] == url@);
                }
            }
            assert(self.urls@[before.len() as int]@ == url@);
            url_views(before).lemma_push_to_set_commute(self.urls@.last()@);
            assert(self.events@.drop_last() =~= old(self).events@);
        }
        Ok(())
    }

    /// Removes `url`; only the root origin may.
    pub fn remove_url(&mut self, origin: Origin, url: Vec<u8>) -> (r: Result<(), Error>)
        requires
            old(self).wf(),
        ensures
            final(self).wf(),
            final(self).max_url_length == old(self).max_url_length,
            r == (if !(origin is Root) {
                Err(Error::BadOrigin)
            } else if url@.len() > old(self).max_url_length {
                Err(Error::UrlTooLong)
            } else if !old(self)@.contains(url@) {
                Err(Error::UrlNotWhitelisted)
            } else {
                Ok(())
            }),
            r is Ok ==> final(self)@ == old(self)@.remove(url@),
            r is Ok ==> final(self).events@ == old(self).events@.push(Event::UrlRemoved { url }),
            r is Err ==> final(self)@ == old(self)@ && final(self).events@ == old(self).events@,
    {
        if ensure_root(origin).is_err() {
            return Err(Error::BadOrigin);
        }
        if url.len() > self.max_url_length {
            return Err(Error::UrlTooLong);
        }
        match self.position(&url) {
            None => Err(Error::UrlNotWhitelisted),
            Some(i) => {
                let ghost before = self.urls@;
                self.urls.remove(i);
                self.events.push(Event::UrlRemoved { url });
                proof {
                    let u = url@;
                    let bv = url_views(before);
                    let av = url_views(self.urls@);
                    assert(av =~= bv.remove(i as int));
                    assert forall|x: Seq<u8>| av.to_set().contains(x) <==> bv.to_set().remove(u).contains(x) by {
                        if av.to_set().contains(x) {
                            let k = choose|k: int| 0 <= k < av.len() && av[k] == x;
                            if k < i {
                                assert(bv[k] == x);
                                assert(x != u);
                            } else {
                                assert(bv[k + 1] == x);
                                assert(x != u);
                            }
                        }
                        if bv.to_set().remove(u).contains(x) {
                            let k = choose|k: int| 0 <= k < bv.len() && bv[k] == x;
                            assert(k != i);
                            if k < i {
                                assert(av[k] == x);
                            } else {
                                assert(av[k - 1] == x);
                            }
                        }
                    }
                    assert(av.to_set() =~= bv.to_set().remove(u));
                    assert(self.events@.drop_last() =~= old(self).events@);
                }
                Ok(())
            },
        }
    }
}

/// A URL is whitelisted exactly when a successful add of it was recorded and
/// no successful remove of it was recorded after that add.
pub proof fn lemma_whitelist_history(w: &Whitelist, u: Seq<u8>)
    requires
        w.wf(),
    ensures
        w@.contains(u) <==> added_and_not_removed(w.events@, u),
{
    lemma_replay_history(w.events@, u);
}

proof fn lemma_replay_history(evs: Seq<Event>, u: Seq<u8>)
    ensures
        replay(evs).contains(u) <==> added_and_not_removed(evs, u),
    decreases evs.len(),
{
    if evs.len() > 0 {
        let prev = evs.drop_last();
        let n = evs.len() - 1;
        lemma_replay_history(prev, u);
        if is_add_of(evs[n], u) {
            assert(forall|j: int| n < j < evs.len() ==> !#[trigger] is_remove_of(evs[j], u));
            assert(added_and_not_removed(evs, u));
        } else if is_remove_of(evs[n], u) {
            if added_and_not_removed(evs, u) {
                let i = choose|i: int|
                    0 <= i < evs.len() && #[trigger] is_add_of(evs[i], u) && forall|j: int|
                        i < j < evs.len() ==> !#[trigger] is_remove_of(evs[j], u);
                assert(i != n);
                assert(false);
            }
        } else {
            if added_and_not_removed(prev, u) {
                let i = choose|i: int|
                    0 <= i < prev.len() && #[trigger] is_add_of(prev[i], u) && forall|j: int|
                        i < j < prev.len() ==> !#[trigger] is_remove_of(prev[j], u);
                assert(is_add_of(evs[i], u));
                assert forall|j: int| i < j < evs.len() implies !#[trigger] is_remove_of(evs[j], u) by {
                    if j < n {
                        assert(evs[j] == prev[j]);
                    }
                }
            }
            if added_and_not_removed(evs, u) {
                let i = choose|i: int|
                    0 <= i < evs.len() && #[trigger] is_add_of(evs[i], u) && forall|j: int|
                        i < j < evs.len() ==> !#[trigger] is_remove_of(evs[j], u);
                assert(i != n);
                assert(is_add_of(prev[i], u));
                assert forall|j: int| i < j < prev.len() implies !#[trigger] is_remove_of(prev[j], u) by {
                    assert(evs[j] == prev[j]);
                }
            }
            match evs.last() {
                Event::UrlAdded { url } => {
                    assert(url@ != u);
                },
                Event::UrlRemoved { url } => {
                    assert(url@ != u);
                },
            }
        }
    }
}

} // verus!
