//! Players listed by strategy in a JSON object, such as
//! `{"random": ["Ann"], "balanced": ["Bob", "Cid"]}`.

use vstd::prelude::*;
use std::collections::HashMap;
use crate::game::player::{
    BalancedStrategy, MetaRandomStrategy, Player, ProbabilityStrategy, RandomStrategy, Strategy,
};

verus! {

broadcast use vstd::string::group_string_axioms;

/// The object that `serde_json` reads from `text` when it reads a map from
/// strings to lists of strings, or `None` when `text` is not such an object.
pub uninterp spec fn json_lists(text: Seq<char>) -> Option<Map<Seq<char>, Seq<Seq<char>>>>;

/// A strategy name with the names of its players, as plain sequences.
pub open spec fn entry_view(e: (String, Vec<String>)) -> (Seq<char>, Seq<Seq<char>>) {
    (e.0@, e.1@.map_values(|s: String| s@))
}

/// `entries` list the keys and values of `m`, each key once.
pub open spec fn lists_entries(m: Map<Seq<char>, Seq<Seq<char>>>, entries: Seq<(Seq<char>, Seq<Seq<char>>)>) -> bool {
    &&& forall|i: int, j: int| 0 <= i < j < entries.len() ==> entries[i].0 != entries[j].0
    &&& forall|i: int| 0 <= i < entries.len() ==> m.contains_key(#[trigger] entries[i].0) && m[entries[i].0] == entries[i].1
    &&& forall|k: Seq<char>| m.contains_key(k) ==> exists|i: int| 0 <= i < entries.len() && #[trigger] entries[i].0 == k
}

/// Reads `text` with `serde_json::from_str` as a `HashMap<String, Vec<String>>`
/// and hands out its entries. The map is named `json_lists`; the order of the
/// entries is that of the walk over the hash map, which is left to chance.
#[verifier::external_body]
fn parse_lists(text: &str) -> (r: Option<Vec<(String, Vec<String>)>>)
    ensures
        match r {
            None => json_lists(text@) is None,
            Some(entries) => json_lists(text@) matches Some(m) && lists_entries(
                m,
                entries@.map_values(|e: (String, Vec<String>)| entry_view(e)),
            ),
        },
{
    serde_json::from_str::<HashMap<String, Vec<String>>>(text).ok().map(|m| m.into_iter().collect())
}

/// The strategy that `name` stands for.
pub open spec fn strategy_named(name: Seq<char>) -> Option<Strategy> {
    if name == "random"@ {
        Some(Strategy::Random(RandomStrategy))
    } else if name == "balanced"@ {
        Some(Strategy::Balanced(BalancedStrategy))
    } else if name == "probability"@ {
        Some(Strategy::Probability(ProbabilityStrategy))
    } else if name == "metarandom"@ {
        Some(Strategy::MetaRandom(MetaRandomStrategy {
            random: RandomStrategy,
            balanced: BalancedStrategy,
            probability: ProbabilityStrategy,
        }))
    } else {
        None
    }
}

/// The players that `entries` list, in order: for each entry of a known
/// strategy, one player per name, with that strategy.
pub open spec fn listed_players(entries: Seq<(Seq<char>, Seq<Seq<char>>)>) -> Seq<(Seq<char>, Strategy)>
    decreases entries.len(),
{
    if entries.len() == 0 {
        Seq::empty()
    } else {
        let last = entries.last();
        listed_players(entries.drop_last()) + match strategy_named(last.0) {
            Some(s) => last.1.map_values(|n: Seq<char>| (n, s)),
            None => Seq::empty(),
        }
    }
}

/// The strategy names of `entries` that stand for no strategy, in order.
pub open spec fn unknown_strategies(entries: Seq<(Seq<char>, Seq<Seq<char>>)>) -> Seq<Seq<char>>
    decreases entries.len(),
{
    if entries.len() == 0 {
        Seq::empty()
    } else {
        let last = entries.last();
        unknown_strategies(entries.drop_last()) + if strategy_named(last.0) is None {
            seq![last.0]
        } else {
            Seq::empty()
        }
    }
}

/// `players` are new players, without stars or cards, with the names and
/// strategies of `listed`.
pub open spec fn new_players(players: Seq<Player>, listed: Seq<(Seq<char>, Strategy)>) -> bool {
    &&& players.len() == listed.len()
    &&& forall|i: int| 0 <= i < players.len() ==> {
        &&& #[trigger] players[i].name@ == listed[i].0
        &&& players[i].strategy == listed[i].1
        &&& players[i].star == 0
        &&& players[i].cards@.len() == 0
    }
}

/// The strategy that `name` stands for.
pub fn strategy_for(name: &String) -> (r: Option<Strategy>)
    ensures
        r == strategy_named(name@),
{
    if *name == String::from_str("random") {
        Some(Strategy::Random(RandomStrategy))
    } else if *name == String::from_str("balanced") {
        Some(Strategy::Balanced(BalancedStrategy))
    } else if *name == String::from_str("probability") {
        Some(Strategy::Probability(ProbabilityStrategy))
    } else if *name == String::from_str("metarandom") {
        Some(Strategy::MetaRandom(MetaRandomStrategy::new()))
    } else {
        None
    }
}

/// Makes the players that `entries` list, and collects the strategy names
/// that stand for no strategy.
pub fn players_from_lists(entries: Vec<(String, Vec<String>)>) -> (r: (Vec<Player>, Vec<String>))
    ensures
        new_players(r.0@, listed_players(entries@.map_values(|e: (String, Vec<String>)| entry_view(e)))),
        r.1@.map_values(|s: String| s@) == unknown_strategies(
            entries@.map_values(|e: (String, Vec<String>)| entry_view(e)),
        ),
{
    let ghost all = entries@.map_values(|e: (String, Vec<String>)| entry_view(e));
    let mut players: Vec<Player> = Vec::new();
    let mut unknown: Vec<String> = Vec::new();
    for k in 0..entries.len()
        invariant
            all == entries@.map_values(|e: (String, Vec<String>)| entry_view(e)),
            new_players(players@, listed_players(all.take(k as int))),
            unknown@.map_values(|s: String| s@) == unknown_strategies(all.take(k as int)),
    {
        let (strategy_name, player_names) = &entries[k];
        let ghost before = players@;
        proof {
            assert(all.take(k + 1).drop_last() =~= all.take(k as int));
            assert(all.take(k + 1).last() == all[k as int]);
        }
        match strategy_for(strategy_name) {
            Some(strategy) => {
                let ghost group = all[k as int].1.map_values(|n: Seq<char>| (n, strategy));
                assert(group.len() == player_names@.len());
                assert(group.take(0) =~= Seq::<(Seq<char>, Strategy)>::empty());
                assert(listed_players(all.take(k as int)) + group.take(0) =~= listed_players(all.take(k as int)));
                for j in 0..player_names.len()
                    invariant
                        k < entries@.len(),
                        all == entries@.map_values(|e: (String, Vec<String>)| entry_view(e)),
                        all[k as int] == entry_view(entries@[k as int]),
                        *player_names == entries@[k as int].1,
                        group == all[k as int].1.map_values(|n: Seq<char>| (n, strategy)),
                        group.len() == player_names@.len(),
                        new_players(players@, listed_players(all.take(k as int)) + group.take(j as int)),
                {
                    let ghost prev = players@;
                    let name = player_names[j].clone();
                    proof {
                        assert(group[j as int] == (player_names@[j as int]@, strategy));
                    }
                    players.push(Player::new(name, strategy));
                    proof {
                        let listed = (listed_players(all.take(k as int)) + group.take(j as int)).push(group[j as int]);
                        assert forall|i: int| 0 <= i < players@.len() implies {
                            &&& #[trigger] players@[i].name@ == listed[i].0
                            &&& players@[i].strategy == listed[i].1
                            &&& players@[i].star == 0
                            &&& players@[i].cards@.len() == 0
                        } by {
                            let before_listed = listed_players(all.take(k as int)) + group.take(j as int);
                            if i < prev.len() {
                                assert(players@[i] == prev[i]);
                                assert(prev[i].name@ == before_listed[i].0);
                                assert(listed[i] == before_listed[i]);
                            } else {
                                assert(listed[i] == group[j as int]);
                            }
                        }
                        assert(listed_players(all.take(k as int)) + group.take(j + 1) =~= (listed_players(
                            all.take(k as int),
                        ) + group.take(j as int)).push(group[j as int]));
                        assert(new_players(players@, listed));
                        assert(listed == listed_players(all.take(k as int)) + group.take(j + 1));
                    }
                }
                proof {
                    assert(group.take(player_names.len() as int) =~= group);
                    assert(unknown_strategies(all.take(k + 1)) =~= unknown_strategies(all.take(k as int)));
                }
            },
            None => {
                unknown.push(strategy_name.clone());
                proof {
                    assert(listed_players(all.take(k + 1)) =~= listed_players(all.take(k as int)));
                    assert(unknown@.map_values(|s: String| s@) =~= unknown_strategies(all.take(k + 1)));
                }
            },
        }
    }
    proof {
        assert(all.take(entries.len() as int) =~= all);
    }
    (players, unknown)
}

/// Reads the players that the JSON object `text` lists by strategy. Returns
/// `None` when `text` is no object of lists of strings; otherwise the players
/// of the known strategies and the strategy names that stand for none. The
/// entries come in the order of the walk over the parsed map.
pub fn players_from_json(text: &str) -> (r: Option<(Vec<Player>, Vec<String>)>)
    ensures
        r is None <==> json_lists(text@) is None,
        r matches Some((players, unknown)) ==> exists|entries: Seq<(Seq<char>, Seq<Seq<char>>)>|
            #[trigger] lists_entries(json_lists(text@)->0, entries) && new_players(players@, listed_players(entries))
                && unknown@.map_values(|s: String| s@) == unknown_strategies(entries),
{
    match parse_lists(text) {
        None => None,
        Some(entries) => {
            let ghost view = entries@.map_values(|e: (String, Vec<String>)| entry_view(e));
            let r = players_from_lists(entries);
            proof {
                assert(lists_entries(json_lists(text@)->0, view));
            }
            Some(r)
        },
    }
}

} // verus!
