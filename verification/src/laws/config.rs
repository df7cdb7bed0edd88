//! Laws of the configuration.
use crate::config;
use crate::digits;
use crate::laws::letters;
use crate::text;
use vstd::prelude::*;

verus! {

/// A variable that is unset or empty never replaces a default.
pub proof fn lemma_unset_keeps_default(
    vars: Seq<(String, String)>,
    key: Seq<char>,
    default: Seq<char>,
    secs: u64,
)
    requires
        config::env_value(vars, key) matches Some(v) ==> v.len() == 0,
    ensures
        config::env_or(vars, key, default) == default,
        config::env_name_or(vars, key, default) == default,
        config::env_secs_or(vars, key, secs) == secs,
{
}

/// A variable that is set takes the place of the default.
pub proof fn lemma_set_replaces_default(
    vars: Seq<(String, String)>,
    key: Seq<char>,
    default: Seq<char>,
    value: Seq<char>,
)
    requires
        config::env_value(vars, key) == Some(value),
        value.len() > 0,
    ensures
        config::env_or(vars, key, default) == value,
        config::env_name_or(vars, key, default) == config::canonical(value),
{
}

/// The reload interval is never zero.
pub proof fn lemma_interval_is_positive(vars: Seq<(String, String)>, key: Seq<char>, default: u64)
    requires
        default > 0,
    ensures
        config::env_secs_or(vars, key, default) > 0,
{
}

/// Without a choice the server runs on the in-memory store.
pub proof fn lemma_memory_by_default(vars: Seq<(String, String)>)
    requires
        config::env_value(vars, "LODESTAR_STORE"@) matches Some(v) ==> v.len() == 0,
    ensures
        config::chosen_store(vars) == Ok::<Option<Seq<char>>, Seq<char>>(None),
{
    reveal_strlit("memory");
    reveal_strlit("postgres");
    assert("memory"@.len() != "postgres"@.len());
}

/// Whether the variable at `i` is the first with the name `key`.
pub open spec fn is_set_at(vars: Seq<(String, String)>, key: Seq<char>, i: int) -> bool {
    &&& 0 <= i < vars.len()
    &&& vars[i].0@ == key
    &&& forall|k: int| 0 <= k < i ==> (#[trigger] vars[k]).0@ != key
}

/// A variable has the value that it is first given, and none where it is not set.
pub proof fn lemma_variable_means(vars: Seq<(String, String)>, key: Seq<char>)
    ensures
        match config::env_value(vars, key) {
            Some(v) => exists|i: int| #[trigger] is_set_at(vars, key, i) && vars[i].1@ == v,
            None => forall|k: int| 0 <= k < vars.len() ==> (#[trigger] vars[k]).0@ != key,
        },
    decreases vars.len(),
{
    if vars.len() > 0 {
        if vars[0].0@ == key {
            assert(is_set_at(vars, key, 0));
        } else {
            let rest = vars.drop_first();
            lemma_variable_means(rest, key);
            match config::env_value(rest, key) {
                Some(v) => {
                    let i = choose|i: int| #[trigger] is_set_at(rest, key, i) && rest[i].1@ == v;
                    assert forall|k: int| 0 <= k < i + 1 implies (#[trigger] vars[k]).0@ != key by {
                        if k > 0 {
                            assert(rest[k - 1] == vars[k]);
                        }
                    }
                    assert(vars[i + 1] == rest[i]);
                    assert(is_set_at(vars, key, i + 1));
                },
                None => {
                    assert forall|k: int| 0 <= k < vars.len() implies (#[trigger] vars[k]).0@
                        != key by {
                        if k > 0 {
                            assert(rest[k - 1] == vars[k]);
                        }
                    }
                },
            }
        }
    }
}

/// An interval in digits is that number of seconds, and one second for zero; what is no number of 64
/// bits keeps the default.
pub proof fn lemma_interval_means(
    vars: Seq<(String, String)>,
    key: Seq<char>,
    value: Seq<char>,
    default: u64,
)
    requires
        config::env_value(vars, key) == Some(value),
        value.len() > 0,
    ensures
        letters::is_digits(value) ==> config::env_secs_or(vars, key, default) == {
            let n = digits::number(value);
            if n > 0xffff_ffff_ffff_ffff {
                default as int
            } else if n == 0 {
                1
            } else {
                n as int
            }
        },
        !letters::is_digits(value) && value[0] != '+' ==> config::env_secs_or(vars, key, default)
            == default,
{
    letters::lemma_digits(value);
    if letters::is_digits(value) {
        assert(letters::is_digit_at(value, 0));
    }
}

/// A feature is on for `on`, `true`, `1` and `yes`, in any case and with white space around, and off for
/// everything else.
pub proof fn lemma_truthy_means(value: Seq<char>)
    ensures
        config::is_truthy(value) <==> {
            let t = text::trimmed(value);
            ||| letters::same_letters(t, seq!['o', 'n'])
            ||| letters::same_letters(t, seq!['t', 'r', 'u', 'e'])
            ||| t == seq!['1']
            ||| letters::same_letters(t, seq!['y', 'e', 's'])
        },
{
    reveal_strlit("on");
    reveal_strlit("true");
    reveal_strlit("1");
    reveal_strlit("yes");
    let t = text::trimmed(value);
    assert("on"@ =~= seq!['o', 'n']);
    assert("true"@ =~= seq!['t', 'r', 'u', 'e']);
    assert("1"@ =~= seq!['1']);
    assert("yes"@ =~= seq!['y', 'e', 's']);
    assert(text::lowered("on"@) =~= "on"@);
    assert(text::lowered("true"@) =~= "true"@);
    assert(text::lowered("1"@) =~= "1"@);
    assert(text::lowered("yes"@) =~= "yes"@);
    letters::lemma_same_lower(t, "on"@);
    letters::lemma_same_lower(t, "true"@);
    letters::lemma_same_lower(t, "1"@);
    letters::lemma_same_lower(t, "yes"@);
    if letters::same_letters(t, seq!['1']) {
        assert(letters::same_letter(t[0], '1'));
        assert(t =~= seq!['1']);
    }
    if t == seq!['1'] {
        assert(letters::same_letters(t, seq!['1']));
    }
}

/// The database is chosen by name, with the address of its own variable before the general one; without
/// an address it is refused, and so is any other name than the two.
pub proof fn lemma_store_means(vars: Seq<(String, String)>)
    ensures
        ({
            let kind = config::env_or(vars, "LODESTAR_STORE"@, "memory"@);
            let own = config::env_or(vars, "LODESTAR_DATABASE_URL"@, Seq::<char>::empty());
            let general = config::env_or(vars, "DATABASE_URL"@, Seq::<char>::empty());
            match config::chosen_store(vars) {
                Ok(None) => kind == "memory"@,
                Ok(Some(url)) => {
                    &&& kind == "postgres"@
                    &&& url.len() > 0
                    &&& url == if own.len() > 0 {
                        own
                    } else {
                        general
                    }
                },
                Err(e) => {
                    &&& kind != "memory"@
                    &&& if kind == "postgres"@ {
                        own.len() == 0 && general.len() == 0 && e
                            == "LODESTAR_STORE=postgres requires LODESTAR_DATABASE_URL"@
                    } else {
                        e == "unknown LODESTAR_STORE="@ + kind + " (use memory|postgres)"@
                    }
                },
            }
        }),
{
    reveal_strlit("memory");
    reveal_strlit("postgres");
    assert("memory"@.len() != "postgres"@.len());
}

/// Whether the variable `key` is set to `value`, which is not empty.
pub open spec fn is_given(vars: Seq<(String, String)>, key: Seq<char>, value: Seq<char>) -> bool {
    value.len() > 0 && exists|i: int| #[trigger] is_set_at(vars, key, i) && vars[i].1@ == value
}

/// Whether the variable `key` is not set, or set to an empty value.
pub open spec fn is_not_given(vars: Seq<(String, String)>, key: Seq<char>) -> bool {
    forall|i: int| #[trigger] is_set_at(vars, key, i) ==> vars[i].1@.len() == 0
}

/// A variable that is given has its value, and one that is not has none.
proof fn lemma_given(vars: Seq<(String, String)>, key: Seq<char>, value: Seq<char>)
    ensures
        is_given(vars, key, value) ==> config::env_nonempty_value(vars, key) == Some(value),
        is_not_given(vars, key) ==> config::env_nonempty_value(vars, key) is None,
{
    lemma_variable_means(vars, key);
    if is_given(vars, key, value) {
        let i = choose|i: int| #[trigger] is_set_at(vars, key, i) && vars[i].1@ == value;
        match config::env_value(vars, key) {
            Some(v) => {
                let k = choose|k: int| #[trigger] is_set_at(vars, key, k) && vars[k].1@ == v;
                if i < k {
                    assert(vars[i].0@ != key);
                }
                if k < i {
                    assert(vars[k].0@ != key);
                }
            },
            None => {
                assert(vars[i].0@ != key);
            },
        }
    }
}

/// Each setting follows its own variable, names in their canonical form; a setting without its variable
/// has its default.
pub proof fn lemma_configured_means(vars: Seq<(String, String)>, v: Seq<char>)
    ensures
        ({
            let c = config::configured(vars);
            &&& is_given(vars, "BIND_ADDR"@, v) ==> c.bind_addr == v
            &&& is_not_given(vars, "BIND_ADDR"@) ==> c.bind_addr == "0.0.0.0:9110"@
            &&& is_given(vars, "LODESTAR_DNS_ADDR"@, v) ==> c.dns_addr == v
            &&& is_not_given(vars, "LODESTAR_DNS_ADDR"@) ==> c.dns_addr == "0.0.0.0:5353"@
            &&& is_given(vars, "LODESTAR_ZONE"@, v) ==> c.zone_name == config::canonical(v)
            &&& is_not_given(vars, "LODESTAR_ZONE"@) ==> c.zone_name == "w33d.xyz"@
            &&& is_given(vars, "LODESTAR_PRIMARY_NS"@, v) ==> c.primary_ns == config::canonical(v)
            &&& is_not_given(vars, "LODESTAR_PRIMARY_NS"@) ==> c.primary_ns == "ns1.w33d.xyz"@
            &&& is_given(vars, "LODESTAR_HOSTMASTER"@, v) ==> c.hostmaster == config::canonical(v)
            &&& is_not_given(vars, "LODESTAR_HOSTMASTER"@) ==> c.hostmaster
                == "hostmaster.w33d.xyz"@
            &&& is_given(vars, "LODESTAR_SEED_IP"@, v) ==> c.seed_ip == v
            &&& is_not_given(vars, "LODESTAR_SEED_IP"@) ==> c.seed_ip == "159.195.136.226"@
            &&& is_not_given(vars, "LODESTAR_RELOAD_SECS"@) ==> c.reload_secs == 15
            &&& is_given(vars, "LODESTAR_RELOAD_SECS"@, v) ==> c.reload_secs == match digits::unsigned(
                v,
                0xffff_ffff_ffff_ffff,
            ) {
                Some(n) => if n == 0 {
                    1
                } else {
                    n as int
                },
                None => 15,
            }
        }),
{
    lemma_given(vars, "BIND_ADDR"@, v);
    lemma_given(vars, "LODESTAR_DNS_ADDR"@, v);
    lemma_given(vars, "LODESTAR_ZONE"@, v);
    lemma_given(vars, "LODESTAR_PRIMARY_NS"@, v);
    lemma_given(vars, "LODESTAR_HOSTMASTER"@, v);
    lemma_given(vars, "LODESTAR_SEED_IP"@, v);
    lemma_given(vars, "LODESTAR_RELOAD_SECS"@, v);
}

} // verus!
