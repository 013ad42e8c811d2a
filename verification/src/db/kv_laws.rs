//! What holds of settings and checkpoints: what was kept is what is read, and
//! nothing else is touched.

use vstd::prelude::*;

use crate::db::config::{set_statement, value_statement, KeySource, KDF_SALT_KEY, NODE_ID_KEY};
use crate::db::row::text_in;
use crate::db::statement::StatementView;
use crate::db::sync_state::{checkpoint_statement, last_pull_statement};
use crate::db::texts;
use crate::engine::{opened_key, opened_node};
use crate::sync::{kept_checkpoint, PullView};
use crate::text::hex_bytes;

verus! {

/// Texts by key.
pub type Values = Map<Seq<char>, Seq<char>>;

/// The settings after a statement.
pub open spec fn config_ran(t: Values, st: StatementView) -> Values {
    if st.sql == texts::write_config() {
        t.insert(text_in(st.params[0]), text_in(st.params[1]))
    } else {
        t
    }
}

/// The settings after a list of statements, one after the other.
pub open spec fn config_ran_all(t: Values, script: Seq<StatementView>) -> Values
    decreases script.len(),
{
    if script.len() == 0 {
        t
    } else {
        config_ran(config_ran_all(t, script.drop_last()), script.last())
    }
}

/// The checkpoints after a statement.
pub open spec fn checkpoints_ran(t: Values, st: StatementView) -> Values {
    if st.sql == texts::write_checkpoint() {
        t.insert(text_in(st.params[0]), text_in(st.params[1]))
    } else {
        t
    }
}

/// The text under a key.
pub open spec fn value_at(t: Values, key: Seq<char>) -> Option<Seq<char>> {
    if t.contains_key(key) {
        Some(t[key])
    } else {
        None
    }
}

/// Whether a statement may read this setting.
pub open spec fn config_answers(t: Values, st: StatementView, found: Option<Seq<char>>) -> bool {
    st.sql == texts::read_config() ==> found == value_at(t, text_in(st.params[0]))
}

/// Whether a statement may read this checkpoint.
pub open spec fn checkpoint_answers(
    t: Values,
    st: StatementView,
    found: Option<Seq<char>>,
) -> bool {
    st.sql == texts::read_checkpoint() ==> found == value_at(t, text_in(st.params[0]))
}

/// A setting that was kept is the one that is read, and no other changes.
pub proof fn law_setting_is_kept(
    t: Values,
    key: Seq<char>,
    value: Seq<char>,
    asked: Seq<char>,
    found: Option<Seq<char>>,
)
    requires
        config_answers(config_ran(t, set_statement(key, value)), value_statement(asked), found),
    ensures
        asked == key ==> found == Some(value),
        asked != key ==> found == value_at(t, asked),
{
}

/// The checkpoint of a backend that was kept is the one that is read, and those
/// of other backends stay.
pub proof fn law_checkpoint_is_kept(
    t: Values,
    backend: Seq<char>,
    hlc: Seq<char>,
    asked: Seq<char>,
    found: Option<Seq<char>>,
)
    requires
        checkpoint_answers(
            checkpoints_ran(t, checkpoint_statement(backend, hlc)),
            last_pull_statement(asked),
            found,
        ),
    ensures
        asked == backend ==> found == Some(hlc),
        asked != backend ==> found == value_at(t, asked),
{
}

/// After a pull cycle the checkpoint that it came to is kept, so that the next
/// cycle begins there; those of other backends stay. A cycle that came no further
/// writes nothing.
pub proof fn law_next_pull_begins_where_the_last_ended(
    t: Values,
    v: PullView,
    backend: Seq<char>,
    other: Seq<char>,
)
    requires
        v.from == value_at(t, backend),
        v.from is Some ==> v.reached is Some,
    ensures
        ({
            let after = match kept_checkpoint(v, backend) {
                Some(st) => checkpoints_ran(t, st),
                None => t,
            };
            &&& value_at(after, backend) == v.reached
            &&& other != backend ==> value_at(after, other) == value_at(t, other)
            &&& v.reached == v.from ==> kept_checkpoint(v, backend) is None
        }),
{
}

/// Whether a key comes from a passphrase.
pub open spec fn is_passphrase(source: Option<KeySource>) -> bool {
    source matches Some(KeySource::Passphrase(_))
}

/// Opening an engine keeps what it made: whoever opens it again finds the node
/// id and the salt that were made the first time, and opens with them.
pub proof fn law_opening_keeps_what_it_made(
    t: Values,
    source: Option<KeySource>,
    node: Seq<u8>,
    salt: Seq<u8>,
    other: Seq<char>,
)
    requires
        opened_node(value_at(t, "node_id"@), node) is Ok,
        opened_key(source, value_at(t, "kdf_salt"@), salt) is Ok,
    ensures
        ({
            let (id, keep_node) = opened_node(value_at(t, "node_id"@), node)->Ok_0;
            let (_, keep_salt) = opened_key(source, value_at(t, "kdf_salt"@), salt)->Ok_0;
            let after = config_ran_all(t, keep_node + keep_salt);
            &&& !t.contains_key("node_id"@) ==> value_at(after, "node_id"@) == Some(hex_bytes(id))
            &&& t.contains_key("node_id"@) ==> value_at(after, "node_id"@) == value_at(
                t,
                "node_id"@,
            )
            &&& t.contains_key("kdf_salt"@) ==> value_at(after, "kdf_salt"@) == value_at(
                t,
                "kdf_salt"@,
            )
            &&& !t.contains_key("kdf_salt"@) && is_passphrase(source)
                ==> value_at(after, "kdf_salt"@) == Some(hex_bytes(salt))
            &&& other != "node_id"@ && other != "kdf_salt"@ ==> value_at(after, other) == value_at(
                t,
                other,
            )
        }),
{
    reveal_strlit("node_id");
    reveal_strlit("kdf_salt");
    assert("node_id"@.len() != "kdf_salt"@.len());
    assert(NODE_ID_KEY@ == "node_id"@ && KDF_SALT_KEY@ == "kdf_salt"@);
    let (id, keep_node) = opened_node(value_at(t, "node_id"@), node)->Ok_0;
    let (_, keep_salt) = opened_key(source, value_at(t, "kdf_salt"@), salt)->Ok_0;
    let script = keep_node + keep_salt;
    reveal_with_fuel(config_ran_all, 3);
    if script.len() == 2 {
        assert(script.drop_last().drop_last() =~= Seq::<StatementView>::empty());
        assert(script.drop_last().last() == script[0]);
    } else if script.len() == 1 {
        assert(script.drop_last() =~= Seq::<StatementView>::empty());
    }
}

/// A raw key is taken as it is, and nothing is kept for it; without a key
/// source there is no key.
pub proof fn law_raw_key_is_the_key(key: [u8; 32], found: Option<Seq<char>>, fresh: Seq<u8>)
    ensures
        opened_key(Some(KeySource::RawKey(key)), found, fresh) is Ok,
        opened_key(Some(KeySource::RawKey(key)), found, fresh)->Ok_0.0 == Some(key@),
        opened_key(Some(KeySource::RawKey(key)), found, fresh)->Ok_0.1.len() == 0,
        opened_key(None, found, fresh) is Ok,
        opened_key(None, found, fresh)->Ok_0.0 is None,
        opened_key(None, found, fresh)->Ok_0.1.len() == 0,
{
}

/// A node id that was kept is taken whatever random one is at hand, and a new
/// one is the random one.
pub proof fn law_kept_node_id_is_taken(found: Option<Seq<char>>, a: Seq<u8>, b: Seq<u8>)
    ensures
        found is Some ==> opened_node(found, a) == opened_node(found, b),
        found is None ==> opened_node(found, a) is Ok && opened_node(found, a)->Ok_0.0 == a,
{
}

} // verus!
