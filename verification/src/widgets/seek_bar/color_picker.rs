use vstd::prelude::*;
use vstd::multiset::Multiset;
use std::collections::VecDeque;
use crate::helpers::str_map::StrMap;

verus! {

/// A pool of mark colors handed out to video players: the colors still
/// free, in the order they are handed out, and the color each player holds.
#[derive(Clone)]
pub struct ColorPool {
    available: VecDeque<String>,
    in_use: StrMap<String>,
    initial: Ghost<Multiset<Seq<char>>>,
}

/// What a `ColorPool` holds.
pub struct ColorPoolView {
    pub available: Seq<Seq<char>>,
    pub in_use: Map<Seq<char>, Seq<char>>,
}

impl View for ColorPool {
    type V = ColorPoolView;

    closed spec fn view(&self) -> ColorPoolView {
        ColorPoolView {
            available: self.available@.map_values(|c: String| c@),
            in_use: self.in_use@.map_values(|c: String| c@),
        }
    }
}

/// The pool after player `id` asks for a color, and the color it gets: the
/// first free color, or nothing (and no change) when none is free.
pub open spec fn assign_spec(pool: ColorPoolView, id: Seq<char>) -> (ColorPoolView, Option<Seq<char>>) {
    if pool.available.len() == 0 {
        (pool, None)
    } else {
        (
            ColorPoolView {
                available: pool.available.drop_first(),
                in_use: pool.in_use.insert(id, pool.available[0]),
            },
            Some(pool.available[0]),
        )
    }
}

/// The pool after player `id` gives its color back: the color goes to the
/// end of the free colors; nothing changes if the player holds none.
pub open spec fn release_spec(pool: ColorPoolView, id: Seq<char>) -> ColorPoolView {
    if pool.in_use.contains_key(id) {
        ColorPoolView {
            available: pool.available.push(pool.in_use[id]),
            in_use: pool.in_use.remove(id),
        }
    } else {
        pool
    }
}

impl ColorPool {
    pub closed spec fn wf(&self) -> bool {
        self.in_use.wf()
    }

    /// The colors the pool was made with, each as often as it was given.
    pub closed spec fn initial_colors(&self) -> Multiset<Seq<char>> {
        self.initial@
    }

    /// No color has been lost or made twice: the free colors and the held
    /// ones are exactly the colors the pool was made with.
    pub open spec fn intact(&self) -> bool {
        self@.in_use.dom().finite() && pool_colors(self@) == self.initial_colors()
    }

    proof fn lemma_in_use_finite(&self)
        requires
            self.wf(),
        ensures
            self@.in_use.dom().finite(),
    {
        self.in_use.lemma_entries();
        assert(self@.in_use.dom() =~= self.in_use@.dom());
    }

    /// A pool whose free colors are `colors`, in that order.
    pub fn new(colors: Vec<String>) -> (p: Self)
        ensures
            p.wf(),
            p@.available == colors@.map_values(|c: String| c@),
            p@.in_use == Map::<Seq<char>, Seq<char>>::empty(),
            p.intact(),
            p.initial_colors() == colors@.map_values(|c: String| c@).to_multiset(),
    {
        let mut available: VecDeque<String> = VecDeque::new();
        let n = colors.len();
        for i in 0..n
            invariant
                n == colors@.len(),
                available@ == colors@.subrange(0, i as int),
        {
            available.push_back(colors[i].clone());
            assert(available@ =~= colors@.subrange(0, i + 1));
        }
        assert(available@ =~= colors@);
        let ghost initial = colors@.map_values(|c: String| c@).to_multiset();
        let p = ColorPool { available, in_use: StrMap::new(), initial: Ghost(initial) };
        assert(p@.in_use =~= Map::<Seq<char>, Seq<char>>::empty());
        proof {
            assert(p@.available =~= colors@.map_values(|c: String| c@));
            lemma_new_pool_colors(p@.available);
            assert(p@ == ColorPoolView { available: p@.available, in_use: Map::empty() });
        }
        p
    }

    /// Gives player `video_player_id` the first free color, if there is one.
    pub fn assign_color(&mut self, video_player_id: &str) -> (r: Option<String>)
        requires
            old(self).wf(),
        ensures
            final(self).wf(),
            (final(self)@, match r {
                Some(c) => Some(c@),
                None => None,
            }) == assign_spec(old(self)@, video_player_id@),
            final(self)@.in_use.dom().finite(),
            final(self).initial_colors() == old(self).initial_colors(),
            old(self).intact() && !old(self)@.in_use.contains_key(video_player_id@) ==> final(self).intact(),
    {
        proof {
            self.lemma_in_use_finite();
            lemma_pool_keeps_colors(self@, video_player_id@);
        }
        if let Some(color) = self.available.pop_front() {
            self.in_use.insert(video_player_id.to_owned(), color.clone());
            proof {
                assert(self@.available =~= old(self)@.available.drop_first());
                assert(self@.in_use =~= old(self)@.in_use.insert(video_player_id@, color@));
            }
            proof {
                self.lemma_in_use_finite();
            }
            return Some(color);
        } else {
            return None;
        }
    }

    /// Takes back the color of player `video_player_id`, if it holds one.
    pub fn release_color(&mut self, video_player_id: &str)
        requires
            old(self).wf(),
        ensures
            final(self).wf(),
            final(self)@ == release_spec(old(self)@, video_player_id@),
            final(self)@.in_use.dom().finite(),
            final(self).initial_colors() == old(self).initial_colors(),
            old(self).intact() ==> final(self).intact(),
    {
        proof {
            self.lemma_in_use_finite();
            lemma_pool_keeps_colors(self@, video_player_id@);
        }
        if let Some(color) = self.in_use.remove(video_player_id) {
            self.available.push_back(color);
            proof {
                assert(self@.available =~= old(self)@.available.push(color@));
                assert(self@.in_use =~= old(self)@.in_use.remove(video_player_id@));
                self.lemma_in_use_finite();
            }
        } else {
            assert(self.in_use@ =~= old(self).in_use@);
            assert(self@.in_use =~= old(self)@.in_use);
        }
    }
}

/// A player that held no color and takes one, then gives it back, leaves the
/// pool as it was, except that the color now comes last among the free ones.
pub proof fn lemma_assign_then_release(pool: ColorPoolView, id: Seq<char>)
    requires
        !pool.in_use.contains_key(id),
        pool.available.len() > 0,
    ensures
        release_spec(assign_spec(pool, id).0, id) == (ColorPoolView {
            available: pool.available.drop_first().push(pool.available[0]),
            in_use: pool.in_use,
        }),
{
    assert(pool.in_use.insert(id, pool.available[0]).remove(id) =~= pool.in_use);
}

/// No color is handed out while another one is free ahead of it: the
/// colors go out in the order in which they were given to the pool.
pub proof fn lemma_assign_order(pool: ColorPoolView, a: Seq<char>, b: Seq<char>)
    requires
        pool.available.len() >= 2,
    ensures
        assign_spec(pool, a).1 == Some(pool.available[0]),
        assign_spec(assign_spec(pool, a).0, b).1 == Some(pool.available[1]),
{
}

/// The colors that players hold, each as often as it is held.
pub open spec fn held_colors(in_use: Map<Seq<char>, Seq<char>>) -> Multiset<Seq<char>>
    decreases in_use.dom().len(),
    when in_use.dom().finite()
{
    if in_use.dom().len() == 0 {
        Multiset::empty()
    } else {
        let k = in_use.dom().choose();
        proof {
            assert(in_use.dom().contains(k));
            assert(in_use.remove(k).dom() =~= in_use.dom().remove(k));
        }
        held_colors(in_use.remove(k)).insert(in_use[k])
    }
}

/// Every color of a pool, free or held, each as often as it occurs.
pub open spec fn pool_colors(pool: ColorPoolView) -> Multiset<Seq<char>> {
    pool.available.to_multiset().add(held_colors(pool.in_use))
}

proof fn lemma_held_colors_remove(m: Map<Seq<char>, Seq<char>>, k: Seq<char>)
    requires
        m.dom().finite(),
        m.dom().contains(k),
    ensures
        held_colors(m) =~= held_colors(m.remove(k)).insert(m[k]),
    decreases m.dom().len(),
{
    assert(m.dom().len() != 0);
    let c = m.dom().choose();
    assert(m.dom().contains(c));
    assert(m.remove(k).dom() =~= m.dom().remove(k));
    assert(m.remove(c).dom() =~= m.dom().remove(c));
    if c != k {
        lemma_held_colors_remove(m.remove(c), k);
        lemma_held_colors_remove(m.remove(k), c);
        assert(m.remove(c).remove(k) =~= m.remove(k).remove(c));
        assert(m.remove(c)[k] == m[k]);
        assert(m.remove(k)[c] == m[c]);
    }
}

/// A new pool holds exactly the colors it was given.
pub proof fn lemma_new_pool_colors(colors: Seq<Seq<char>>)
    ensures
        pool_colors(ColorPoolView { available: colors, in_use: Map::empty() }) == colors.to_multiset(),
{
    let m = Map::<Seq<char>, Seq<char>>::empty();
    assert(m.dom() =~= Set::empty());
    assert(pool_colors(ColorPoolView { available: colors, in_use: m }) =~= colors.to_multiset());
}

/// No color is lost or made twice: handing a color to a player that holds
/// none, or taking one back, leaves the pool with the same colors, free or
/// held.
pub proof fn lemma_pool_keeps_colors(pool: ColorPoolView, id: Seq<char>)
    requires
        pool.in_use.dom().finite(),
    ensures
        !pool.in_use.contains_key(id) ==> {
            &&& assign_spec(pool, id).0.in_use.dom().finite()
            &&& pool_colors(assign_spec(pool, id).0) == pool_colors(pool)
        },
        release_spec(pool, id).in_use.dom().finite(),
        pool_colors(release_spec(pool, id)) == pool_colors(pool),
{
    broadcast use vstd::seq_lib::group_to_multiset_ensures;

    if !pool.in_use.contains_key(id) && pool.available.len() > 0 {
        let a = pool.available;
        let m2 = pool.in_use.insert(id, a[0]);
        lemma_held_colors_remove(m2, id);
        assert(m2.remove(id) =~= pool.in_use);
        assert(a.drop_first() =~= a.remove(0));
        assert(a.to_multiset().count(a[0]) > 0) by {
            assert(a.contains(a[0]));
        }
        assert(pool_colors(assign_spec(pool, id).0) =~= pool_colors(pool));
    }
    if pool.in_use.contains_key(id) {
        let c = pool.in_use[id];
        lemma_held_colors_remove(pool.in_use, id);
        assert(pool_colors(release_spec(pool, id)) =~= pool_colors(pool));
    }
}

/// In a pool that has lost no color, made from distinct colors, a held
/// color is not also free, and no two players hold the same color.
pub proof fn lemma_intact_colors_distinct(pool: ColorPoolView, initial: Multiset<Seq<char>>, a: Seq<char>, b: Seq<char>)
    requires
        pool.in_use.dom().finite(),
        pool_colors(pool) == initial,
        forall|c: Seq<char>| #[trigger] initial.count(c) <= 1,
        pool.in_use.contains_key(a),
    ensures
        !pool.available.contains(pool.in_use[a]),
        pool.in_use.contains_key(b) && a != b ==> pool.in_use[a] != pool.in_use[b],
{
    broadcast use vstd::seq_lib::group_to_multiset_ensures;

    let c = pool.in_use[a];
    let rest = pool.in_use.remove(a);
    lemma_held_colors_remove(pool.in_use, a);
    assert(rest.dom() =~= pool.in_use.dom().remove(a));
    assert(initial.count(c) <= 1);
    if pool.available.contains(c) {
        assert(pool.available.to_multiset().count(c) > 0);
        assert(held_colors(pool.in_use).count(c) > 0);
        assert(pool_colors(pool).count(c) > 1);
    }
    if pool.in_use.contains_key(b) && a != b && pool.in_use[b] == c {
        assert(rest.contains_key(b));
        lemma_held_colors_remove(rest, b);
        assert(held_colors(rest).count(c) > 0);
        assert(held_colors(pool.in_use).count(c) > 1);
        assert(pool_colors(pool).count(c) > 1);
    }
}

} // verus!
