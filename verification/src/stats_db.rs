//! The statistics queries' pure parts: the per-period time filter, the SQL
//! text of the total/unique/top queries, and the database file's location
//! under a base directory.
//!
//! Opening the database, binding parameters and reading rows belong to the
//! binary; everything it sends to the database engine is assembled here.

use vstd::prelude::*;
use vstd::string::*;

verus! {

/// The SQL clause restricting a query to the requested period; any other
/// period means no restriction.
pub fn time_filter(period: &str) -> (r: &'static str)
    ensures
        r@ == (if period@ == "today"@ {
            "AND timestamp >= datetime('now', 'start of day')"@
        } else if period@ == "week"@ {
            "AND timestamp >= datetime('now', '-7 days')"@
        } else if period@ == "month"@ {
            "AND timestamp >= datetime('now', '-30 days')"@
        } else if period@ == "year"@ {
            "AND timestamp >= datetime('now', '-365 days')"@
        } else {
            ""@
        }),
{
    if crate::strutil::str_eq(period, "today") {
        "AND timestamp >= datetime('now', 'start of day')"
    } else if crate::strutil::str_eq(period, "week") {
        "AND timestamp >= datetime('now', '-7 days')"
    } else if crate::strutil::str_eq(period, "month") {
        "AND timestamp >= datetime('now', '-30 days')"
    } else if crate::strutil::str_eq(period, "year") {
        "AND timestamp >= datetime('now', '-365 days')"
    } else {
        ""
    }
}

/// The statistics database sits directly under the base directory.
pub fn get_stats_db_path_in(base_dir: &str) -> (r: String)
    ensures
        r@ == base_dir@ + "/stats.db"@,
{
    let mut path = String::from_str(base_dir);
    path.append("/stats.db");
    path
}

/// The query counting all expansions of the period, optionally narrowed by
/// a trigger pattern bound later.
pub fn build_totals_sql(time_filter: &str, with_grep: bool) -> (r: String)
    ensures
        r@ == "SELECT COUNT(*) FROM expansions e JOIN triggers t ON e.trigger_id = t.id WHERE 1=1 "@
            + time_filter@ + (if with_grep {
            " AND t.name LIKE ?"@
        } else {
            Seq::<char>::empty()
        }),
{
    let mut sql = String::from_str(
        "SELECT COUNT(*) FROM expansions e JOIN triggers t ON e.trigger_id = t.id WHERE 1=1 ",
    );
    sql.append(time_filter);
    if with_grep {
        sql.append(" AND t.name LIKE ?");
    }
    proof {
        if !with_grep {
            assert(sql@ =~= sql@ + Seq::<char>::empty());
        }
    }
    sql
}

/// The query counting the distinct triggers of the period, optionally
/// narrowed by a trigger pattern bound later.
pub fn build_unique_sql(time_filter: &str, with_grep: bool) -> (r: String)
    ensures
        r@ == "SELECT COUNT(*) FROM (SELECT DISTINCT t.id FROM expansions e JOIN triggers t ON e.trigger_id = t.id WHERE 1=1 "@
            + time_filter@ + (if with_grep {
            " AND t.name LIKE ?"@
        } else {
            Seq::<char>::empty()
        }) + ")"@,
{
    let mut sql = String::from_str(
        "SELECT COUNT(*) FROM (SELECT DISTINCT t.id FROM expansions e JOIN triggers t ON e.trigger_id = t.id WHERE 1=1 ",
    );
    sql.append(time_filter);
    if with_grep {
        sql.append(" AND t.name LIKE ?");
    }
    proof {
        if !with_grep {
            assert(sql@ =~= sql@ + Seq::<char>::empty());
        }
    }
    sql.append(")");
    sql
}

/// The query listing the most used triggers of the period with their
/// counts, optionally narrowed by a trigger pattern; the row limit is
/// bound later.
pub fn build_top_sql(time_filter: &str, with_grep: bool) -> (r: String)
    ensures
        r@ == "SELECT t.name as trigger, COUNT(*) as count FROM expansions e JOIN triggers t ON e.trigger_id = t.id WHERE 1=1 "@
            + time_filter@ + (if with_grep {
            " AND t.name LIKE ?"@
        } else {
            Seq::<char>::empty()
        }) + " GROUP BY t.name ORDER BY count DESC LIMIT ?"@,
{
    let mut sql = String::from_str(
        "SELECT t.name as trigger, COUNT(*) as count FROM expansions e JOIN triggers t ON e.trigger_id = t.id WHERE 1=1 ",
    );
    sql.append(time_filter);
    if with_grep {
        sql.append(" AND t.name LIKE ?");
    }
    proof {
        if !with_grep {
            assert(sql@ =~= sql@ + Seq::<char>::empty());
        }
    }
    sql.append(" GROUP BY t.name ORDER BY count DESC LIMIT ?");
    sql
}

} // verus!
