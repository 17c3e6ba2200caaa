use pinrs::query::{compile_query, BookmarkQuery};
use pinrs::sql::{
    render_list, render_lookup, Lookup, SqlArg, AND_UNREAD, CLOSE, GROUP_BY_ID, GROUP_ORDER,
    INTERSECT, LIMIT, NAME_IS, NO_LIMIT, OFFSET, OR_NAME_IS, SELECT_ROWS, TAGGED_IDS, TEXT_IDS,
    WHERE_ID, WHERE_ID_IN, WHERE_UNREAD, WHERE_URL,
};

fn query(q: Option<&str>, limit: Option<u32>, offset: Option<u32>, unread: Option<&str>) -> BookmarkQuery {
    BookmarkQuery {
        q: q.map(|s| s.to_string()),
        limit,
        offset,
        unread: unread.map(|s| s.to_string()),
    }
}

#[test]
fn plain_listing_sql() {
    let st = render_list(&compile_query(&query(None, None, None, None)));
    assert_eq!(st.sql, format!("{SELECT_ROWS}{GROUP_ORDER}{LIMIT}"));
    assert_eq!(st.args, vec![SqlArg::Int(100)]);
    assert!(st.sql.ends_with(
        " GROUP BY posts.id ORDER BY posts.date_added DESC, posts.id DESC LIMIT ?"
    ));
}

#[test]
fn tags_are_alternatives() {
    let st = render_list(&compile_query(&query(Some("#A #B"), None, None, None)));
    assert_eq!(
        st.sql,
        format!("{SELECT_ROWS}{WHERE_ID_IN}{TAGGED_IDS}{NAME_IS}{OR_NAME_IS}{CLOSE}{CLOSE}{GROUP_ORDER}{LIMIT}")
    );
    assert_eq!(
        st.args,
        vec![SqlArg::Text("A".to_string()), SqlArg::Text("B".to_string()), SqlArg::Int(100)]
    );
}

#[test]
fn tags_and_text_intersect() {
    let st = render_list(&compile_query(&query(Some("#A zeta"), None, None, None)));
    assert_eq!(
        st.sql,
        format!("{SELECT_ROWS}{WHERE_ID_IN}{TAGGED_IDS}{NAME_IS}{CLOSE}{INTERSECT}{TEXT_IDS}{CLOSE}{GROUP_ORDER}{LIMIT}")
    );
    assert!(st.sql.contains(") INTERSECT SELECT rowid FROM posts_fts WHERE posts_fts MATCH ?)"));
    assert_eq!(
        st.args,
        vec![SqlArg::Text("A".to_string()), SqlArg::Text("zeta".to_string()), SqlArg::Int(100)]
    );
}

#[test]
fn text_alone_is_one_match_expression() {
    let st = render_list(&compile_query(&query(Some("alpha beta"), None, None, None)));
    assert_eq!(st.sql, format!("{SELECT_ROWS}{WHERE_ID_IN}{TEXT_IDS}{CLOSE}{GROUP_ORDER}{LIMIT}"));
    assert_eq!(st.args, vec![SqlArg::Text("alpha beta".to_string()), SqlArg::Int(100)]);
}

#[test]
fn unread_alone_is_the_where_clause() {
    let st = render_list(&compile_query(&query(None, None, None, Some("yes"))));
    assert_eq!(st.sql, format!("{SELECT_ROWS}{WHERE_UNREAD}{GROUP_ORDER}{LIMIT}"));
}

#[test]
fn unread_is_anded_with_a_tag_filter() {
    let st = render_list(&compile_query(&query(Some("#A"), None, None, Some("yes"))));
    assert_eq!(
        st.sql,
        format!("{SELECT_ROWS}{WHERE_ID_IN}{TAGGED_IDS}{NAME_IS}{CLOSE}{CLOSE}{AND_UNREAD}{GROUP_ORDER}{LIMIT}")
    );
}

#[test]
fn offset_with_default_limit() {
    let st = render_list(&compile_query(&query(None, None, Some(2), None)));
    assert_eq!(st.sql, format!("{SELECT_ROWS}{GROUP_ORDER}{LIMIT}{OFFSET}"));
    assert_eq!(st.args, vec![SqlArg::Int(100), SqlArg::Int(2)]);
}

#[test]
fn limit_and_offset() {
    let st = render_list(&compile_query(&query(None, Some(2), Some(2), None)));
    assert_eq!(st.args, vec![SqlArg::Int(2), SqlArg::Int(2)]);
}

#[test]
fn limit_zero_is_unbounded() {
    let st = render_list(&compile_query(&query(None, Some(0), None, None)));
    assert_eq!(st.sql, format!("{SELECT_ROWS}{GROUP_ORDER}"));
    assert!(st.args.is_empty());
    let st = render_list(&compile_query(&query(None, Some(0), Some(3), None)));
    assert_eq!(st.sql, format!("{SELECT_ROWS}{GROUP_ORDER}{NO_LIMIT}{OFFSET}"));
    assert_eq!(st.args, vec![SqlArg::Int(3)]);
}

#[test]
fn lookups_by_id_and_by_url() {
    let st = render_lookup(&Lookup::Id(7));
    assert_eq!(st.sql, format!("{SELECT_ROWS}{WHERE_ID}{GROUP_BY_ID}"));
    assert_eq!(st.args, vec![SqlArg::Int(7)]);
    let st = render_lookup(&Lookup::Url("https://x.test".to_string()));
    assert_eq!(st.sql, format!("{SELECT_ROWS}{WHERE_URL}{GROUP_BY_ID}"));
    assert_eq!(st.args, vec![SqlArg::Text("https://x.test".to_string())]);
}
