//! The merge of defaults, configuration text, environment and arguments.
use vstd::prelude::*;

use crate::entry::{
    argument_entries, argument_entries_of, config_entries, config_entries_of, entries_view,
    strings_view, Entry,
};
use crate::settings::{entry_map, keys_unique, Settings};

verus! {

/// The value that `k` resolves to: the argument's value, else the
/// environment's, else the configuration's, else the default.
pub open spec fn pick(
    k: Seq<char>,
    default: Seq<char>,
    file: Map<Seq<char>, Seq<char>>,
    env: Map<Seq<char>, Seq<char>>,
    args: Map<Seq<char>, Seq<char>>,
) -> Seq<char> {
    if args.contains_key(k) {
        args[k]
    } else if env.contains_key(k) {
        env[k]
    } else if file.contains_key(k) {
        file[k]
    } else {
        default
    }
}

/// Each key of `defaults`, and no other, mapped to its value from the
/// highest-priority source that has it.
pub open spec fn resolved(
    defaults: Map<Seq<char>, Seq<char>>,
    file: Map<Seq<char>, Seq<char>>,
    env: Map<Seq<char>, Seq<char>>,
    args: Map<Seq<char>, Seq<char>>,
) -> Map<Seq<char>, Seq<char>> {
    Map::new(|k: Seq<char>| defaults.contains_key(k), |k: Seq<char>| pick(k, defaults[k], file, env, args))
}

/// The mapping that an optional configuration text gives; none without a text.
pub open spec fn config_map(text: Option<Seq<char>>) -> Map<Seq<char>, Seq<char>> {
    match text {
        Some(t) => entry_map(config_entries_of(t)),
        None => Map::empty(),
    }
}

/// The view of an optional string.
pub open spec fn opt_str_view(s: Option<&str>) -> Option<Seq<char>> {
    match s {
        Some(t) => Some(t@),
        None => None,
    }
}

/// The settings that `defaults`, an optional configuration text, the
/// environment's name/value pairs and a program's arguments resolve to.
pub open spec fn settings_of(
    defaults: Map<Seq<char>, Seq<char>>,
    config: Option<Seq<char>>,
    env: Seq<Entry>,
    args: Seq<Seq<char>>,
) -> Map<Seq<char>, Seq<char>> {
    resolved(defaults, config_map(config), entry_map(env), entry_map(argument_entries_of(args)))
}

/// The entries among `entries` whose key is not one of `keys`.
pub open spec fn unrecognized_of(keys: Map<Seq<char>, Seq<char>>, entries: Seq<Entry>) -> Seq<Entry> {
    entries.filter(|e: Entry| !keys.contains_key(e.0))
}

/// The value that the last of `entries` with key `key` holds, if any.
fn last_value<'a>(entries: &'a Vec<(String, String)>, key: &String) -> (r: Option<&'a String>)
    ensures
        match r {
            Some(v) => entry_map(entries_view(entries@)).contains_key(key@)
                && entry_map(entries_view(entries@))[key@] == v@,
            None => !entry_map(entries_view(entries@)).contains_key(key@),
        },
{
    let ghost ev = entries_view(entries@);
    let mut i: usize = entries.len();
    assert(ev.take(i as int) =~= ev);
    while i > 0
        invariant
            i <= entries@.len(),
            ev == entries_view(entries@),
            entry_map(ev).contains_key(key@) == entry_map(ev.take(i as int)).contains_key(key@),
            entry_map(ev).contains_key(key@) ==> entry_map(ev)[key@] == entry_map(ev.take(i as int))[key@],
        decreases i,
    {
        assert(ev.take(i as int).drop_last() =~= ev.take(i - 1));
        if entries[i - 1].0 == *key {
            return Some(&entries[i - 1].1);
        }
        i = i - 1;
    }
    None
}

/// Resolves each key of `defaults` against the entries of the three other
/// sources: an argument's entry first, then the environment's, then the
/// configuration's; where none has the key, its default stays. Keys that
/// `defaults` lacks are left out.
pub fn merge(
    defaults: &Settings,
    file: &Vec<(String, String)>,
    env: &Vec<(String, String)>,
    args: &Vec<(String, String)>,
) -> (r: Settings)
    ensures
        r@ == resolved(
            defaults@,
            entry_map(entries_view(file@)),
            entry_map(entries_view(env@)),
            entry_map(entries_view(args@)),
        ),
{
    let ghost fm = entry_map(entries_view(file@));
    let ghost em = entry_map(entries_view(env@));
    let ghost am = entry_map(entries_view(args@));
    let ds = defaults.as_entries();
    let ghost dv = entries_view(ds@);
    let mut r = Settings::new();
    let mut i: usize = 0;
    assert(dv.take(0) =~= Seq::<Entry>::empty());
    assert(r@ =~= resolved(entry_map(dv.take(0)), fm, em, am));
    while i < ds.len()
        invariant
            i <= ds@.len(),
            dv == entries_view(ds@),
            fm == entry_map(entries_view(file@)),
            em == entry_map(entries_view(env@)),
            am == entry_map(entries_view(args@)),
            r@ == resolved(entry_map(dv.take(i as int)), fm, em, am),
        decreases ds.len() - i,
    {
        let key = &ds[i].0;
        let from_args = last_value(args, key);
        let from_env = last_value(env, key);
        let from_file = last_value(file, key);
        let value: &String = if let Some(v) = from_args {
            v
        } else if let Some(v) = from_env {
            v
        } else if let Some(v) = from_file {
            v
        } else {
            &ds[i].1
        };
        let ghost before = entry_map(dv.take(i as int));
        assert(dv.take(i + 1).drop_last() =~= dv.take(i as int));
        assert(value@ == pick(key@, ds@[i as int].1@, fm, em, am));
        assert(dv[i as int] == (key@, ds@[i as int].1@));
        assert(entry_map(dv.take(i + 1)) == before.insert(key@, ds@[i as int].1@));
        r.insert(key.clone(), value.clone());
        assert(r@ =~= resolved(before.insert(key@, ds@[i as int].1@), fm, em, am));
        i = i + 1;
    }
    assert(dv.take(i as int) =~= dv);
    r
}

/// The settings that `defaults` resolve to, given the text of a
/// configuration file (`None` where there is no file or it could not be
/// read), the environment's name/value pairs, and the program's arguments,
/// the program's name first.
pub fn resolve(
    defaults: &Settings,
    config: Option<&str>,
    env: &Vec<(String, String)>,
    args: &Vec<String>,
) -> (r: Settings)
    ensures
        r@ == settings_of(defaults@, opt_str_view(config), entries_view(env@), strings_view(args@)),
{
    let file = match config {
        Some(text) => config_entries(text),
        None => {
            let v: Vec<(String, String)> = Vec::new();
            assert(entries_view(v@) =~= Seq::<Entry>::empty());
            v
        },
    };
    let arg_entries = argument_entries(args);
    merge(defaults, &file, env, &arg_entries)
}

/// The entries among `entries` whose key `defaults` lacks, in order.
pub fn unrecognized(defaults: &Settings, entries: &Vec<(String, String)>) -> (r: Vec<(String, String)>)
    ensures
        entries_view(r@) == unrecognized_of(defaults@, entries_view(entries@)),
{
    let ghost ev = entries_view(entries@);
    let mut r: Vec<(String, String)> = Vec::new();
    let mut i: usize = 0;
    proof {
        reveal(Seq::filter);
    }
    assert(ev.take(0) =~= Seq::<Entry>::empty());
    assert(entries_view(r@) =~= unrecognized_of(defaults@, ev.take(0)));
    while i < entries.len()
        invariant
            i <= entries@.len(),
            ev == entries_view(entries@),
            entries_view(r@) == unrecognized_of(defaults@, ev.take(i as int)),
        decreases entries.len() - i,
    {
        proof {
            reveal(Seq::filter);
        }
        assert(ev.take(i + 1).drop_last() =~= ev.take(i as int));
        let ghost before = entries_view(r@);
        if !defaults.contains_key(entries[i].0.as_str()) {
            r.push((entries[i].0.clone(), entries[i].1.clone()));
            assert(entries_view(r@) =~= before.push(ev[i as int]));
        }
        i = i + 1;
    }
    assert(ev.take(i as int) =~= ev);
    r
}

/// The keys of `defaults` that none of the other sources' entries sets, each
/// once: those whose default stays.
pub fn kept_defaults(
    defaults: &Settings,
    file: &Vec<(String, String)>,
    env: &Vec<(String, String)>,
    args: &Vec<(String, String)>,
) -> (r: Vec<String>)
    ensures
        strings_view(r@).no_duplicates(),
        forall|k: Seq<char>|
            #[trigger] strings_view(r@).contains(k) <==> (defaults@.contains_key(k)
                && !entry_map(entries_view(file@)).contains_key(k)
                && !entry_map(entries_view(env@)).contains_key(k)
                && !entry_map(entries_view(args@)).contains_key(k)),
{
    let ghost fm = entry_map(entries_view(file@));
    let ghost em = entry_map(entries_view(env@));
    let ghost am = entry_map(entries_view(args@));
    let ds = defaults.as_entries();
    let ghost dv = entries_view(ds@);
    let mut r: Vec<String> = Vec::new();
    let mut i: usize = 0;
    while i < ds.len()
        invariant
            i <= ds@.len(),
            dv == entries_view(ds@),
            keys_unique(dv),
            entry_map(dv) == defaults@,
            fm == entry_map(entries_view(file@)),
            em == entry_map(entries_view(env@)),
            am == entry_map(entries_view(args@)),
            strings_view(r@).no_duplicates(),
            forall|k: Seq<char>|
                #[trigger] strings_view(r@).contains(k) <==> (exists|j: int| 0 <= j < i && (#[trigger] dv[j]).0 == k)
                    && !fm.contains_key(k) && !em.contains_key(k) && !am.contains_key(k),
        decreases ds.len() - i,
    {
        let key = &ds[i].0;
        let ghost before = strings_view(r@);
        assert(dv[i as int].0 == key@);
        if last_value(args, key).is_none() && last_value(env, key).is_none()
            && last_value(file, key).is_none() {
            assert(!before.contains(key@)) by {
                if before.contains(key@) {
                    let j = choose|j: int| 0 <= j < i && (#[trigger] dv[j]).0 == key@;
                    assert(dv[j].0 != dv[i as int].0);
                }
            }
            r.push(key.clone());
            assert(strings_view(r@) =~= before.push(key@));
            assert forall|k: Seq<char>|
                #[trigger] strings_view(r@).contains(k) <==> (exists|j: int| 0 <= j < i + 1 && (#[trigger] dv[j]).0 == k)
                    && !fm.contains_key(k) && !em.contains_key(k) && !am.contains_key(k) by {
                if k != key@ {
                    assert(strings_view(r@).contains(k) == before.contains(k)) by {
                        if before.contains(k) {
                            let q = choose|q: int| 0 <= q < before.len() && before[q] == k;
                            assert(strings_view(r@)[q] == k);
                        }
                        if strings_view(r@).contains(k) {
                            let q = choose|q: int| 0 <= q < strings_view(r@).len() && strings_view(r@)[q] == k;
                            assert(before[q] == k);
                        }
                    }
                    assert((exists|j: int| 0 <= j < i + 1 && (#[trigger] dv[j]).0 == k)
                        == (exists|j: int| 0 <= j < i && (#[trigger] dv[j]).0 == k)) by {
                        if exists|j: int| 0 <= j < i + 1 && (#[trigger] dv[j]).0 == k {
                            let j = choose|j: int| 0 <= j < i + 1 && (#[trigger] dv[j]).0 == k;
                            assert(j != i);
                        }
                    }
                } else {
                    assert(strings_view(r@)[before.len() as int] == k);
                }
            }
        } else {
            assert forall|k: Seq<char>|
                #[trigger] strings_view(r@).contains(k) <==> (exists|j: int| 0 <= j < i + 1 && (#[trigger] dv[j]).0 == k)
                    && !fm.contains_key(k) && !em.contains_key(k) && !am.contains_key(k) by {
                if k != key@ {
                    assert((exists|j: int| 0 <= j < i + 1 && (#[trigger] dv[j]).0 == k)
                        == (exists|j: int| 0 <= j < i && (#[trigger] dv[j]).0 == k)) by {
                        if exists|j: int| 0 <= j < i + 1 && (#[trigger] dv[j]).0 == k {
                            let j = choose|j: int| 0 <= j < i + 1 && (#[trigger] dv[j]).0 == k;
                            assert(j != i);
                        }
                    }
                } else {
                    assert(!before.contains(k)) by {
                        if before.contains(k) {
                            let j = choose|j: int| 0 <= j < i && (#[trigger] dv[j]).0 == k;
                            assert(dv[j].0 != dv[i as int].0);
                        }
                    }
                }
            }
        }
        i = i + 1;
    }
    proof {
        assert forall|k: Seq<char>| #[trigger] defaults@.contains_key(k) <==> (exists|j: int| 0 <= j < dv.len() && (#[trigger] dv[j]).0 == k) by {
            crate::settings::lemma_entry_map_keys(dv, k);
        }
    }
    r
}

} // verus!
