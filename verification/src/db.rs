//! QuestDB configuration and table maintenance statements.

use vstd::prelude::*;
use crate::text::{push_radix, push_text, radix_digits};

verus! {

/// Default QuestDB connection-conf string (`QDB_CLIENT_CONF` format).
pub const DEFAULT_QDB_CONF: &'static str = "ws::addr=localhost:9000;username=admin;password=quest;";

/// Resolve the QuestDB configuration string: the command-line value when
/// given, else the `QDB_CLIENT_CONF` environment value when set, else
/// [`DEFAULT_QDB_CONF`].
pub fn resolve_questdb_conf(cli_conf: Option<&str>, env_conf: Option<&str>) -> (conf: String)
    ensures
        conf@ == match cli_conf {
            Some(c) => c@,
            None => match env_conf {
                Some(e) => e@,
                None => DEFAULT_QDB_CONF@,
            },
        },
{
    match cli_conf {
        Some(c) => c.to_owned(),
        None => match env_conf {
            Some(e) => e.to_owned(),
            None => DEFAULT_QDB_CONF.to_owned(),
        },
    }
}

/// The configuration a connection uses: [`DEFAULT_QDB_CONF`] for an empty
/// string, the string itself otherwise.
pub fn connection_conf(conf_str: &str) -> (conf: &str)
    ensures
        conf@ == if conf_str@.len() == 0 {
            DEFAULT_QDB_CONF@
        } else {
            conf_str@
        },
{
    if conf_str.is_empty() {
        DEFAULT_QDB_CONF
    } else {
        conf_str
    }
}

/// The tables whose TTL `--ttl-hours` sets, in order.
pub open spec fn ttl_tables() -> Seq<Seq<char>> {
    seq!["lob_levels"@, "trades"@, "lob_snapshots"@]
}

/// `ALTER TABLE {table} SET TTL {hours} HOURS`.
pub open spec fn ttl_sql(table: Seq<char>, hours: nat) -> Seq<char> {
    "ALTER TABLE "@ + table + " SET TTL "@ + radix_digits(hours, 10) + " HOURS"@
}

fn ttl_statement(table: &'static str, ttl_hours: u64) -> (sql: String)
    ensures
        sql@ == ttl_sql(table@, ttl_hours as nat),
{
    let mut sql = String::new();
    push_text(&mut sql, "ALTER TABLE ");
    push_text(&mut sql, table);
    push_text(&mut sql, " SET TTL ");
    push_radix(&mut sql, ttl_hours, 10);
    push_text(&mut sql, " HOURS");
    assert(sql@ =~= ttl_sql(table@, ttl_hours as nat));
    sql
}

/// The statements that set the TTL of `lob_levels`, `trades` and
/// `lob_snapshots` to `ttl_hours`, each with its table; none when
/// `ttl_hours` is 0.
pub fn ttl_statements(ttl_hours: u64) -> (stmts: Vec<(&'static str, String)>)
    ensures
        ttl_hours == 0 ==> stmts@.len() == 0,
        ttl_hours > 0 ==> {
            &&& stmts@.len() == ttl_tables().len()
            &&& forall|i: int|
                0 <= i < stmts@.len() ==> {
                    &&& (#[trigger] stmts@[i]).0@ == ttl_tables()[i]
                    &&& stmts@[i].1@ == ttl_sql(ttl_tables()[i], ttl_hours as nat)
                }
        },
{
    let mut stmts: Vec<(&'static str, String)> = Vec::new();
    if ttl_hours == 0 {
        return stmts;
    }
    let tables: [&'static str; 3] = ["lob_levels", "trades", "lob_snapshots"];
    let mut i: usize = 0;
    while i < 3
        invariant
            i <= 3,
            ttl_hours > 0,
            stmts@.len() == i,
            tables@ == seq!["lob_levels", "trades", "lob_snapshots"],
            forall|j: int|
                0 <= j < i ==> {
                    &&& (#[trigger] stmts@[j]).0@ == ttl_tables()[j]
                    &&& stmts@[j].1@ == ttl_sql(ttl_tables()[j], ttl_hours as nat)
                },
        decreases 3 - i,
    {
        let table = tables[i];
        let sql = ttl_statement(table, ttl_hours);
        stmts.push((table, sql));
        i = i + 1;
    }
    stmts
}

} // verus!
