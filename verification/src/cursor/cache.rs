//! Cursor animations already loaded, by icon and image size. A cursor the
//! theme cannot give falls back to the theme's default icon at the same
//! size, and the default icon itself to the animation loaded at start-up.
use crate::cursor::clock::same_icon;
use cursor_icon::CursorIcon;
use vstd::prelude::*;

verus! {

/// Loaded animations; `A` is a shared handle to one.
pub struct CursorCache<A> {
    /// The icon every missing cursor falls back to.
    pub default_icon: CursorIcon,
    /// What the default icon shows when even it cannot be loaded.
    pub fallback: A,
    pub entries: Vec<(CursorIcon, u32, A)>,
}

/// No icon and size are cached twice.
pub open spec fn distinct_keys<A>(s: Seq<(CursorIcon, u32, A)>) -> bool {
    forall|i: int, j: int| 0 <= i < j < s.len() ==> !((#[trigger] s[i]).0 == (#[trigger] s[j]).0 && s[i].1 == s[j].1)
}

/// `s` caches `a` for `icon` at `target`.
pub open spec fn caches<A>(s: Seq<(CursorIcon, u32, A)>, icon: CursorIcon, target: u32, a: A) -> bool {
    exists|k: int| 0 <= k < s.len() && (#[trigger] s[k]).0 == icon && s[k].1 == target && s[k].2 == a
}

/// `s` has an entry for `icon` at `target`.
pub open spec fn has_key<A>(s: Seq<(CursorIcon, u32, A)>, icon: CursorIcon, target: u32) -> bool {
    exists|k: int| 0 <= k < s.len() && (#[trigger] s[k]).0 == icon && s[k].1 == target
}

/// What a load that found nothing leads to.
#[derive(Debug)]
pub enum Settled<A> {
    /// This animation is now cached for the icon and size.
    Ready(A),
    /// Resolve the default icon at the same size, then `alias` the result.
    UseDefault,
}

impl<A: Clone> CursorCache<A> {
    pub open spec fn wf(&self) -> bool {
        distinct_keys(self.entries@)
    }

    /// A cache holding the start-up animation of the default icon at the
    /// configured size.
    pub fn new(default_icon: CursorIcon, size: u32, fallback: A) -> (r: Self)
        ensures
            r.wf(),
            r.default_icon == default_icon,
            r.fallback == fallback,
            r.entries@.len() == 1,
            r.entries@[0].0 == default_icon && r.entries@[0].1 == size && cloned(fallback, r.entries@[0].2),
    {
        let first = fallback.clone();
        let mut entries: Vec<(CursorIcon, u32, A)> = Vec::new();
        entries.push((default_icon, size, first));
        CursorCache { default_icon, fallback, entries }
    }

    fn position(&self, icon: &CursorIcon, target: u32) -> (r: Option<usize>)
        ensures
            r matches Some(k) ==> k < self.entries@.len() && self.entries@[k as int].0 == *icon
                && self.entries@[k as int].1 == target,
            r is None ==> !has_key(self.entries@, *icon, target),
    {
        let mut i: usize = 0;
        while i < self.entries.len()
            invariant
                i <= self.entries@.len(),
                forall|k: int| 0 <= k < i ==> !((#[trigger] self.entries@[k]).0 == *icon && self.entries@[k].1 == target),
            decreases self.entries@.len() - i,
        {
            if same_icon(&self.entries[i].0, icon) && self.entries[i].1 == target {
                return Some(i);
            }
            i = i + 1;
        }
        None
    }

    /// The animation cached for `icon` at `target`, if any.
    pub fn cached(&self, icon: &CursorIcon, target: u32) -> (r: Option<A>)
        requires
            self.wf(),
        ensures
            r is None <==> !has_key(self.entries@, *icon, target),
            r matches Some(a) ==> exists|k: int| 0 <= k < self.entries@.len() && (#[trigger] self.entries@[k]).0 == *icon
                && self.entries@[k].1 == target && cloned(self.entries@[k].2, a),
    {
        match self.position(icon, target) {
            Some(k) => Some(self.entries[k].2.clone()),
            None => None,
        }
    }

    /// Cache `a` for `icon` at `target`, replacing what was there.
    pub fn alias(&mut self, icon: CursorIcon, target: u32, a: A)
        requires
            old(self).wf(),
        ensures
            final(self).wf(),
            final(self).default_icon == old(self).default_icon,
            final(self).fallback == old(self).fallback,
            caches(final(self).entries@, icon, target, a),
            forall|x: CursorIcon, t: u32, b: A| !(x == icon && t == target) ==> (caches(final(self).entries@, x, t, b)
                <==> caches(old(self).entries@, x, t, b)),
    {
        let ghost before = self.entries@;
        match self.position(&icon, target) {
            Some(k) => {
                self.entries[k] = (icon, target, a);
                proof {
                    let after = self.entries@;
                    assert(after[k as int] == (icon, target, a));
                    assert forall|i: int, j: int| 0 <= i < j < after.len() implies !((#[trigger] after[i]).0 == (#[trigger] after[j]).0
                        && after[i].1 == after[j].1) by {
                        assert(!((before[i]).0 == (before[j]).0 && before[i].1 == before[j].1));
                    }
                    assert forall|x: CursorIcon, t: u32, b: A| !(x == icon && t == target) implies (caches(after, x, t, b)
                        <==> caches(before, x, t, b)) by {
                        if caches(after, x, t, b) {
                            let m = choose|m: int| 0 <= m < after.len() && (#[trigger] after[m]).0 == x && after[m].1 == t && after[m].2 == b;
                            assert(before[m] == after[m]);
                        }
                        if caches(before, x, t, b) {
                            let m = choose|m: int| 0 <= m < before.len() && (#[trigger] before[m]).0 == x && before[m].1 == t && before[m].2 == b;
                            assert(before[m] == after[m]);
                        }
                    }
                }
            },
            None => {
                self.entries.push((icon, target, a));
                proof {
                    let after = self.entries@;
                    assert(after[before.len() as int] == (icon, target, a));
                    assert forall|i: int, j: int| 0 <= i < j < after.len() implies !((#[trigger] after[i]).0 == (#[trigger] after[j]).0
                        && after[i].1 == after[j].1) by {
                        if j == before.len() {
                            assert(after[i] == before[i]);
                        } else {
                            assert(after[i] == before[i] && after[j] == before[j]);
                        }
                    }
                    assert forall|x: CursorIcon, t: u32, b: A| !(x == icon && t == target) implies (caches(after, x, t, b)
                        <==> caches(before, x, t, b)) by {
                        if caches(after, x, t, b) {
                            let m = choose|m: int| 0 <= m < after.len() && (#[trigger] after[m]).0 == x && after[m].1 == t && after[m].2 == b;
                            assert(m < before.len());
                            assert(before[m] == after[m]);
                        }
                        if caches(before, x, t, b) {
                            let m = choose|m: int| 0 <= m < before.len() && (#[trigger] before[m]).0 == x && before[m].1 == t && before[m].2 == b;
                            assert(before[m] == after[m]);
                        }
                    }
                }
            },
        }
    }

    /// Settle a load of `icon` at `target` that missed the cache. What
    /// loaded is handed out and a clone of it cached; when nothing loaded,
    /// the default icon falls back to a clone of the start-up animation,
    /// any other icon to the default icon at the same size (which the
    /// caller resolves, then caches under this icon with `alias`).
    pub fn loaded(&mut self, icon: CursorIcon, target: u32, result: Option<A>) -> (r: Settled<A>)
        requires
            old(self).wf(),
        ensures
            final(self).wf(),
            final(self).default_icon == old(self).default_icon,
            final(self).fallback == old(self).fallback,
            result matches Some(a) ==> r == Settled::Ready(a),
            result is None && icon == old(self).default_icon ==> (r matches Settled::Ready(f) && cloned(old(self).fallback, f)),
            result is None && icon != old(self).default_icon ==> r == Settled::<A>::UseDefault
                && final(self).entries@ == old(self).entries@,
            r matches Settled::Ready(a) ==> exists|c: A| cloned(a, c) && #[trigger] caches(final(self).entries@, icon, target, c),
            r matches Settled::Ready(a) ==> forall|x: CursorIcon, t: u32, c: A| !(x == icon && t == target) ==> (caches(
                final(self).entries@, x, t, c) <==> caches(old(self).entries@, x, t, c)),
    {
        let a = match result {
            Some(a) => a,
            None => {
                if same_icon(&icon, &self.default_icon) {
                    self.fallback.clone()
                } else {
                    return Settled::UseDefault;
                }
            },
        };
        let kept = a.clone();
        self.alias(icon, target, kept);
        Settled::Ready(a)
    }
}

} // verus!
