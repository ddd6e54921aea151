use vstd::prelude::*;
use crate::models::ClipFilter;

verus! {

/// One positional parameter of the dynamically assembled listing statement.
#[derive(Debug)]
pub enum SqlParam {
    Text(String),
    Int(i64),
}

/// The parameter binds the given text.
pub open spec fn is_text(p: SqlParam, s: Seq<char>) -> bool {
    p matches SqlParam::Text(t) && t@ == s
}

/// The parameter binds the given integer.
pub open spec fn is_int(p: SqlParam, v: int) -> bool {
    p matches SqlParam::Int(i) && i as int == v
}

/// A listing statement: the SQL text and its positional parameters, in the
/// order the placeholders appear in the text.
#[derive(Debug)]
pub struct ListQuery {
    pub sql: String,
    pub params: Vec<SqlParam>,
}

/// The select-and-join prefix. With a tag constraint the tag relation is
/// joined twice: once restricted to the requested tag (the filter) and once
/// unrestricted (the aggregation), so each matching clip appears exactly
/// once and still carries all of its tags.
pub open spec fn spec_select(tag: bool) -> Seq<char> {
    if tag {
        "SELECT clips.id, clips.content_type, clips.text_content, clips.image_path, clips.image_width, clips.image_height, clips.hash, clips.size_bytes, clips.pinned, clips.created_at, clips.updated_at, GROUP_CONCAT(t2.tag) AS tags FROM clips INNER JOIN tags t1 ON t1.clip_id = clips.id AND t1.tag = ? LEFT JOIN tags t2 ON t2.clip_id = clips.id"@
    } else {
        "SELECT clips.id, clips.content_type, clips.text_content, clips.image_path, clips.image_width, clips.image_height, clips.hash, clips.size_bytes, clips.pinned, clips.created_at, clips.updated_at, GROUP_CONCAT(t.tag) AS tags FROM clips LEFT JOIN tags t ON t.clip_id = clips.id"@
    }
}

/// The conjunctive where-clause: only supplied filter fields contribute a
/// predicate; absent fields impose no constraint.
pub open spec fn spec_where(ct: bool, pinned: bool) -> Seq<char> {
    if ct && pinned {
        " WHERE clips.content_type = ? AND clips.pinned = ?"@
    } else if ct {
        " WHERE clips.content_type = ?"@
    } else if pinned {
        " WHERE clips.pinned = ?"@
    } else {
        ""@
    }
}

/// The whole listing statement for a filter: select-and-join, the dynamic
/// where-clause, then grouping, most-recent-id-first ordering and paging.
pub open spec fn spec_list_sql(f: crate::models::ClipFilterV) -> Seq<char> {
    spec_select(f.tag is Some) + spec_where(f.content_type is Some, f.pinned is Some)
        + " GROUP BY clips.id ORDER BY clips.id DESC LIMIT ? OFFSET ?"@
}

fn select_part(tag: bool) -> (r: &'static str)
    ensures
        r@ == spec_select(tag),
{
    if tag {
        "SELECT clips.id, clips.content_type, clips.text_content, clips.image_path, clips.image_width, clips.image_height, clips.hash, clips.size_bytes, clips.pinned, clips.created_at, clips.updated_at, GROUP_CONCAT(t2.tag) AS tags FROM clips INNER JOIN tags t1 ON t1.clip_id = clips.id AND t1.tag = ? LEFT JOIN tags t2 ON t2.clip_id = clips.id"
    } else {
        "SELECT clips.id, clips.content_type, clips.text_content, clips.image_path, clips.image_width, clips.image_height, clips.hash, clips.size_bytes, clips.pinned, clips.created_at, clips.updated_at, GROUP_CONCAT(t.tag) AS tags FROM clips LEFT JOIN tags t ON t.clip_id = clips.id"
    }
}

fn where_part(ct: bool, pinned: bool) -> (r: &'static str)
    ensures
        r@ == spec_where(ct, pinned),
{
    if ct && pinned {
        " WHERE clips.content_type = ? AND clips.pinned = ?"
    } else if ct {
        " WHERE clips.content_type = ?"
    } else if pinned {
        " WHERE clips.pinned = ?"
    } else {
        ""
    }
}

/// Assemble the listing statement for a filter. The parameters come in the
/// order of the placeholders in the text: the tag (bound inside the join)
/// first, then the where-clause predicates in clause order, then the
/// effective limit and the offset.
pub fn list_query(filter: &ClipFilter) -> (q: ListQuery)
    ensures
        q.sql@ == spec_list_sql(filter@),
        ({
            let tag_n: int = if filter@.tag is Some {
                1
            } else {
                0
            };
            let ct_n: int = if filter@.content_type is Some {
                1
            } else {
                0
            };
            let pin_n: int = if filter@.pinned is Some {
                1
            } else {
                0
            };
            &&& q.params@.len() == tag_n + ct_n + pin_n + 2
            &&& (filter@.tag matches Some(t) ==> is_text(q.params@[0], t))
            &&& (filter@.content_type matches Some(ct) ==> is_text(q.params@[tag_n], ct.token()))
            &&& (filter@.pinned matches Some(p) ==> is_int(
                q.params@[tag_n + ct_n],
                if p {
                    1
                } else {
                    0
                },
            ))
            &&& is_int(q.params@[tag_n + ct_n + pin_n], filter@.spec_effective_limit())
            &&& is_int(q.params@[tag_n + ct_n + pin_n + 1], filter@.offset)
        }),
{
    let mut sql = select_part(filter.tag.is_some()).to_owned();
    sql.append(where_part(filter.content_type.is_some(), filter.pinned.is_some()));
    sql.append(" GROUP BY clips.id ORDER BY clips.id DESC LIMIT ? OFFSET ?");
    let mut params: Vec<SqlParam> = Vec::new();
    match &filter.tag {
        Some(t) => {
            params.push(SqlParam::Text(t.clone()));
        },
        None => {},
    }
    match &filter.content_type {
        Some(ct) => {
            params.push(SqlParam::Text(ct.as_str().to_owned()));
        },
        None => {},
    }
    match filter.pinned {
        Some(p) => {
            params.push(
                SqlParam::Int(
                    if p {
                        1
                    } else {
                        0
                    },
                ),
            );
        },
        None => {},
    }
    params.push(SqlParam::Int(filter.effective_limit()));
    params.push(SqlParam::Int(filter.offset));
    ListQuery { sql, params }
}

} // verus!
