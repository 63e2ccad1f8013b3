//! What holds of every resolution.
use vstd::prelude::*;

use crate::entry::{
    argument_entries_of, argument_entry, collect_config,
    ended_lines, lines_of, pieces, Entry,
};
use crate::resolve::{config_map, resolved, settings_of};
use crate::settings::entry_map;

verus! {

/// The settings have exactly the keys of the defaults, whatever the other
/// sources hold.
pub proof fn law_keys_kept(
    defaults: Map<Seq<char>, Seq<char>>,
    config: Option<Seq<char>>,
    env: Seq<Entry>,
    args: Seq<Seq<char>>,
)
    ensures
        settings_of(defaults, config, env, args).dom() == defaults.dom(),
{
    assert(settings_of(defaults, config, env, args).dom() =~= defaults.dom());
}

/// A key of the defaults takes the argument's value where an argument sets
/// it; else the environment's; else the configuration's; else its default.
pub proof fn law_priority(
    defaults: Map<Seq<char>, Seq<char>>,
    config: Option<Seq<char>>,
    env: Seq<Entry>,
    args: Seq<Seq<char>>,
    k: Seq<char>,
)
    requires
        defaults.contains_key(k),
    ensures
        ({
            let r = settings_of(defaults, config, env, args);
            let a = entry_map(argument_entries_of(args));
            let e = entry_map(env);
            let f = config_map(config);
            &&& r.contains_key(k)
            &&& a.contains_key(k) ==> r[k] == a[k]
            &&& !a.contains_key(k) && e.contains_key(k) ==> r[k] == e[k]
            &&& !a.contains_key(k) && !e.contains_key(k) && f.contains_key(k) ==> r[k] == f[k]
            &&& !a.contains_key(k) && !e.contains_key(k) && !f.contains_key(k) ==> r[k] == defaults[k]
        }),
{
}

/// A key that the defaults lack never appears in the result, and whatever
/// value any source gives it changes nothing.
pub proof fn law_unrecognized_isolated(
    defaults: Map<Seq<char>, Seq<char>>,
    file: Map<Seq<char>, Seq<char>>,
    env: Map<Seq<char>, Seq<char>>,
    args: Map<Seq<char>, Seq<char>>,
    k: Seq<char>,
    x: Seq<char>,
    y: Seq<char>,
    z: Seq<char>,
)
    requires
        !defaults.contains_key(k),
    ensures
        !resolved(defaults, file, env, args).contains_key(k),
        resolved(defaults, file.insert(k, x), env.insert(k, y), args.insert(k, z))
            == resolved(defaults, file, env, args),
{
    assert(resolved(defaults, file.insert(k, x), env.insert(k, y), args.insert(k, z))
        =~= resolved(defaults, file, env, args));
}

/// An environment variable or an argument whose name the defaults lack
/// changes nothing.
pub proof fn law_unrecognized_sources(
    defaults: Map<Seq<char>, Seq<char>>,
    config: Option<Seq<char>>,
    env: Seq<Entry>,
    args: Seq<Seq<char>>,
    var: Entry,
    arg: Seq<char>,
)
    requires
        args.len() > 0,
        !defaults.contains_key(var.0),
        argument_entry(arg) is Some ==> !defaults.contains_key((argument_entry(arg)->0).0),
    ensures
        settings_of(defaults, config, env.push(var), args.push(arg)) == settings_of(defaults, config, env, args),
{
    assert(env.push(var).drop_last() =~= env);
    assert(args.push(arg).drop_first() =~= args.drop_first().push(arg));
    assert(args.drop_first().push(arg).drop_last() =~= args.drop_first());
    let a0 = entry_map(argument_entries_of(args));
    let e0 = entry_map(env);
    let f = config_map(config);
    let e1 = e0.insert(var.0, var.1);
    match argument_entry(arg) {
        Some(p) => {
            let pushed = argument_entries_of(args).push(p);
            assert(pushed.drop_last() =~= argument_entries_of(args));
            law_unrecognized_isolated(defaults, f, e0, a0, var.0, f[var.0], var.1, a0[var.0]);
            assert(resolved(defaults, f, e1, a0.insert(p.0, p.1)) =~= resolved(defaults, f, e0, a0));
        },
        None => {
            assert(resolved(defaults, f, e1, a0) =~= resolved(defaults, f, e0, a0));
        },
    }
}

/// Without a configuration text the result is that of an empty one.
pub proof fn law_no_config(
    defaults: Map<Seq<char>, Seq<char>>,
    env: Seq<Entry>,
    args: Seq<Seq<char>>,
)
    ensures
        settings_of(defaults, None, env, args) == settings_of(defaults, Some(Seq::empty()), env, args),
{
    let p = pieces(Seq::<char>::empty());
    assert(p.drop_last() =~= Seq::<Seq<char>>::empty());
    assert(ended_lines(p.drop_last()) =~= Seq::<Seq<char>>::empty());
    assert(lines_of(Seq::empty()) =~= Seq::<Seq<char>>::empty());
    assert(collect_config(lines_of(Seq::empty())) =~= Seq::<Entry>::empty());
    assert(config_map(Some(Seq::empty())) =~= Map::<Seq<char>, Seq<char>>::empty());
}

/// Without a configuration text, and where neither the environment nor an
/// argument sets a key of the defaults, the result is the defaults.
pub proof fn law_defaults_alone(
    defaults: Map<Seq<char>, Seq<char>>,
    env: Seq<Entry>,
    args: Seq<Seq<char>>,
)
    requires
        forall|k: Seq<char>| #[trigger] defaults.contains_key(k) ==> !entry_map(env).contains_key(k)
            && !entry_map(argument_entries_of(args)).contains_key(k),
    ensures
        settings_of(defaults, None, env, args) == defaults,
{
    assert(settings_of(defaults, None, env, args) =~= defaults);
}

} // verus!
