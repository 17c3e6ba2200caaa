use vstd::prelude::*;

use crate::query::{ListPlan, PlanView};
use crate::search::strings_view;

verus! {

/// A value bound to a `?` of a statement.
#[derive(Debug, PartialEq, Eq)]
pub enum SqlArg {
    Text(String),
    Int(i64),
}

/// A bound value, as a mathematical value.
pub enum ArgView {
    Text(Seq<char>),
    Int(int),
}

impl View for SqlArg {
    type V = ArgView;

    open spec fn view(&self) -> ArgView {
        match self {
            SqlArg::Text(t) => ArgView::Text(t@),
            SqlArg::Int(i) => ArgView::Int(*i as int),
        }
    }
}

/// SQL text with its `?` placeholders, and the values bound to them in order.
pub struct Statement {
    pub sql: String,
    pub args: Vec<SqlArg>,
}

impl Statement {
    pub open spec fn args_view(&self) -> Seq<ArgView> {
        self.args@.map_values(|a: SqlArg| a@)
    }
}

/// Every bookmark row, with its tag names joined by commas.
pub const SELECT_ROWS: &'static str = "SELECT posts.*, group_concat(tags.name) AS tag_names FROM posts LEFT OUTER JOIN post_tag ON (posts.id = post_tag.post_id) LEFT OUTER JOIN tags ON (tags.id = post_tag.tag_id)";

pub const WHERE_ID_IN: &'static str = " WHERE posts.id IN (";

/// The bookmarks linked to a tag whose name is one of the names that follow.
pub const TAGGED_IDS: &'static str = "SELECT post_id FROM post_tag WHERE tag_id IN (SELECT id FROM tags WHERE ";

pub const NAME_IS: &'static str = "name = ?";

pub const OR_NAME_IS: &'static str = " OR name = ?";

pub const INTERSECT: &'static str = " INTERSECT ";

/// The bookmarks whose indexed text matches the bound expression.
pub const TEXT_IDS: &'static str = "SELECT rowid FROM posts_fts WHERE posts_fts MATCH ?";

pub const CLOSE: &'static str = ")";

pub const AND_UNREAD: &'static str = " AND posts.unread = 1";

pub const WHERE_UNREAD: &'static str = " WHERE posts.unread = 1";

/// Newest first; of two added in the same second, the higher id first.
pub const GROUP_ORDER: &'static str = " GROUP BY posts.id ORDER BY posts.date_added DESC, posts.id DESC";

pub const LIMIT: &'static str = " LIMIT ?";

pub const NO_LIMIT: &'static str = " LIMIT -1";

pub const OFFSET: &'static str = " OFFSET ?";

pub const WHERE_ID: &'static str = " WHERE posts.id = ?";

pub const WHERE_URL: &'static str = " WHERE posts.url = ?";

pub const GROUP_BY_ID: &'static str = " GROUP BY posts.id";

/// `n` alternatives `name = ?`, joined by `OR`.
pub open spec fn names_sql(n: nat) -> Seq<char>
    decreases n,
{
    if n <= 1 {
        NAME_IS@
    } else {
        names_sql((n - 1) as nat) + OR_NAME_IS@
    }
}

/// The `WHERE` clause of the tag and text filters.
pub open spec fn filter_sql(p: PlanView) -> Seq<char> {
    let n = p.tag_names.len();
    if n > 0 && p.text is Some {
        WHERE_ID_IN@ + TAGGED_IDS@ + names_sql(n) + CLOSE@ + INTERSECT@ + TEXT_IDS@ + CLOSE@
    } else if n > 0 {
        WHERE_ID_IN@ + TAGGED_IDS@ + names_sql(n) + CLOSE@ + CLOSE@
    } else if p.text is Some {
        WHERE_ID_IN@ + TEXT_IDS@ + CLOSE@
    } else {
        seq![]
    }
}

pub open spec fn unread_sql(p: PlanView) -> Seq<char> {
    if !p.unread_only {
        seq![]
    } else if p.tag_names.len() > 0 || p.text is Some {
        AND_UNREAD@
    } else {
        WHERE_UNREAD@
    }
}

pub open spec fn page_sql(p: PlanView) -> Seq<char> {
    (if p.limit > 0 {
        LIMIT@
    } else if p.offset > 0 {
        NO_LIMIT@
    } else {
        seq![]
    }) + (if p.offset > 0 {
        OFFSET@
    } else {
        seq![]
    })
}

/// The statement text of a listing. Of all bookmarks it selects those that
/// the plan admits (`listing::admits`: the tag names are alternatives, the
/// text goes to the full-text index, and both filters intersect), newest
/// first (`listing::listed_before`), and keeps the plan's page of them
/// (`listing::page`).
pub open spec fn list_sql(p: PlanView) -> Seq<char> {
    SELECT_ROWS@ + filter_sql(p) + unread_sql(p) + GROUP_ORDER@ + page_sql(p)
}

/// The values bound by a listing: the tag names, the text, the limit, the offset.
pub open spec fn list_args(p: PlanView) -> Seq<ArgView> {
    p.tag_names.map_values(|t: Seq<char>| ArgView::Text(t)) + (match p.text {
        Some(t) => seq![ArgView::Text(t)],
        None => seq![],
    }) + (if p.limit > 0 {
        seq![ArgView::Int(p.limit as int)]
    } else {
        seq![]
    }) + (if p.offset > 0 {
        seq![ArgView::Int(p.offset as int)]
    } else {
        seq![]
    })
}

/// Renders a listing plan as one statement.
pub fn render_list(plan: &ListPlan) -> (r: Statement)
    ensures
        r.sql@ == list_sql(plan@),
        r.args_view() == list_args(plan@),
{
    let ghost p = plan@;
    let mut sql = String::from_str(SELECT_ROWS);
    let mut args: Vec<SqlArg> = Vec::new();
    let n = plan.tag_names.len();
    let ghost mut filter: Seq<char> = seq![];
    if n > 0 {
        sql.append(WHERE_ID_IN);
        sql.append(TAGGED_IDS);
        sql.append(NAME_IS);
        args.push(SqlArg::Text(plan.tag_names[0].clone()));
        let mut i: usize = 1;
        while i < n
            invariant
                1 <= i <= n,
                n == plan.tag_names.len(),
                p == plan@,
                sql@ == SELECT_ROWS@ + WHERE_ID_IN@ + TAGGED_IDS@ + names_sql(i as nat),
                args@.len() == i,
                forall|k: int| 0 <= k < i ==> args@[k]@ == ArgView::Text(p.tag_names[k]),
            decreases n - i,
        {
            sql.append(OR_NAME_IS);
            let name = plan.tag_names[i].clone();
            assert(name@ == p.tag_names[i as int]);
            let ghost before = args@;
            args.push(SqlArg::Text(name));
            proof {
                assert(names_sql((i + 1) as nat) == names_sql(i as nat) + OR_NAME_IS@);
                assert(args@ == before.push(SqlArg::Text(name)));
            }
            i = i + 1;
        }
        sql.append(CLOSE);
        assert(args@.map_values(|a: SqlArg| a@) =~= p.tag_names.map_values(
            |t: Seq<char>| ArgView::Text(t),
        ));
    }
    match &plan.text {
        Some(t) => {
            if n > 0 {
                sql.append(INTERSECT);
            } else {
                sql.append(WHERE_ID_IN);
            }
            sql.append(TEXT_IDS);
            args.push(SqlArg::Text(t.clone()));
        },
        None => {},
    }
    if n > 0 || plan.text.is_some() {
        sql.append(CLOSE);
    }
    proof {
        assert(sql@ =~= SELECT_ROWS@ + filter_sql(p));
    }
    if plan.unread_only {
        if n > 0 || plan.text.is_some() {
            sql.append(AND_UNREAD);
        } else {
            sql.append(WHERE_UNREAD);
        }
    }
    sql.append(GROUP_ORDER);
    if plan.limit > 0 {
        sql.append(LIMIT);
        args.push(SqlArg::Int(plan.limit as i64));
    } else if plan.offset > 0 {
        sql.append(NO_LIMIT);
    }
    if plan.offset > 0 {
        sql.append(OFFSET);
        args.push(SqlArg::Int(plan.offset as i64));
    }
    proof {
        assert(sql@ =~= list_sql(p));
        assert(args@.map_values(|a: SqlArg| a@) =~= list_args(p));
    }
    Statement { sql, args }
}

/// How one bookmark is looked up: by its id or by its URL.
#[derive(Debug, PartialEq, Eq)]
pub enum Lookup {
    Id(i64),
    Url(String),
}

/// The statement text of a single-bookmark lookup.
pub open spec fn lookup_sql(by_id: bool) -> Seq<char> {
    SELECT_ROWS@ + (if by_id {
        WHERE_ID@
    } else {
        WHERE_URL@
    }) + GROUP_BY_ID@
}

/// Renders a lookup of one bookmark, with its tag names, by id or by URL.
pub fn render_lookup(by: &Lookup) -> (r: Statement)
    ensures
        r.sql@ == lookup_sql(by is Id),
        r.args_view() == match by {
            Lookup::Id(id) => seq![ArgView::Int(*id as int)],
            Lookup::Url(u) => seq![ArgView::Text(u@)],
        },
{
    let mut sql = String::from_str(SELECT_ROWS);
    let mut args: Vec<SqlArg> = Vec::new();
    match by {
        Lookup::Id(id) => {
            sql.append(WHERE_ID);
            args.push(SqlArg::Int(*id));
        },
        Lookup::Url(u) => {
            sql.append(WHERE_URL);
            args.push(SqlArg::Text(u.clone()));
        },
    }
    sql.append(GROUP_BY_ID);
    let r = Statement { sql, args };
    assert(r.args_view() =~= match by {
        Lookup::Id(id) => seq![ArgView::Int(*id as int)],
        Lookup::Url(u) => seq![ArgView::Text(u@)],
    });
    r
}

} // verus!
