//! The HTML digest written into a note for one feed post: header, post
//! body, ordered comments and footer, with user display-name resolution.

use vstd::prelude::*;
use vstd::string::*;
use crate::records::ChatterCommentRecord;
use crate::records::FeedItemWithComments;
use crate::records::UserRecord;
use crate::strmap::StrMap;
use crate::strutil::spec_format_date;
use crate::strutil::format_date;
use crate::strutil::spec_dec;
use crate::strutil::usize_to_string;

verus! {

/// A user's display name: `name (username)` when the id is known, the raw
/// id otherwise.
pub open spec fn spec_format_user(
    id: Seq<char>,
    um: Map<Seq<char>, (Seq<char>, Seq<char>, Seq<char>)>,
) -> Seq<char> {
    if um.contains_key(id) {
        um[id].1 + " ("@ + um[id].2 + ")"@
    } else {
        id
    }
}

/// Resolve a user id to its display name.
pub fn format_user(id: &str, users: &StrMap<UserRecord>) -> (r: String)
    requires
        users.wf(),
    ensures
        r@ == spec_format_user(id@, users@.map_values(|u: UserRecord| u.view())),
{
    match users.get(id) {
        Some(u) => u.name.clone().concat(" (").concat(u.username.as_str()).concat(")"),
        None => String::from_str(id),
    }
}

/// One comment block of the digest.
pub open spec fn spec_comment_html(
    c: ChatterCommentRecord,
    um: Map<Seq<char>, (Seq<char>, Seq<char>, Seq<char>)>,
) -> Seq<char> {
    "<div style=\"background: #fafafa; padding: 10px; border-radius: 4px; border-left: 3px solid #ccc; margin-top: 8px;\">"@
        + "<p style=\"font-size: 11px; color: #666; margin: 0 0 6px 0;\">"@ + spec_format_date(
        c.created_date@,
    ) + " - "@ + spec_format_user(c.created_by_id@, um) + "</p>"@
        + "<div style=\"font-size: 12px; line-height: 1.5;\">"@ + c.comment_body@ + "</div>"@
        + "</div>"@
}

/// The comment blocks in order.
pub open spec fn spec_comments_html(
    cs: Seq<ChatterCommentRecord>,
    um: Map<Seq<char>, (Seq<char>, Seq<char>, Seq<char>)>,
) -> Seq<char>
    decreases cs.len(),
{
    if cs.len() == 0 {
        Seq::empty()
    } else {
        spec_comments_html(cs.drop_last(), um) + spec_comment_html(cs.last(), um)
    }
}

/// The whole digest for one post and its comments.
pub open spec fn spec_note_html(
    it_body: Seq<char>,
    it_id: Seq<char>,
    it_date: Seq<char>,
    it_author: Seq<char>,
    cs: Seq<ChatterCommentRecord>,
    um: Map<Seq<char>, (Seq<char>, Seq<char>, Seq<char>)>,
) -> Seq<char> {
    "<p style=\"font-size: 10px; color: #999; margin: 0 0 12px 0;\">Chatter post</p>"@
        + "<div style=\"background: #f9f9f9; padding: 12px; border-radius: 4px; border-left: 3px solid #ff7a59; margin: 0 0 12px 0; font-size: 13px; line-height: 1.6;\">"@
        + "<p style=\"font-size: 11px; color: #666; margin: 0 0 8px 0;\">"@ + spec_format_date(
        it_date,
    ) + " - "@ + spec_format_user(it_author, um) + "</p>"@ + it_body + "</div>"@ + (
    if cs.len() > 0 {
        "<p style=\"font-size: 12px; font-weight: 600; margin: 16px 0 8px 0;\">Comments ("@
            + spec_dec(cs.len()) + ")</p>"@ + spec_comments_html(cs, um)
    } else {
        Seq::empty()
    }) + "<hr style=\"margin: 16px 0; border: none; border-top: 1px solid #e5e5e5;\">"@
        + "<p style=\"font-size: 10px; color: #999; margin: 0;\">Salesforce FeedItem ID: "@
        + it_id + "</p>"@
}

/// Write the digest for one unit.
pub fn generate_chatter_note_html(unit: &FeedItemWithComments, users: &StrMap<UserRecord>) -> (r:
    String)
    requires
        users.wf(),
    ensures
        r@ == spec_note_html(
            unit.feed_item.body@,
            unit.feed_item.id@,
            unit.feed_item.created_date@,
            unit.feed_item.created_by_id@,
            unit.comments@,
            users@.map_values(|u: UserRecord| u.view()),
        ),
{
    let ghost um = users@.map_values(|u: UserRecord| u.view());
    let mut html = String::new();
    html.append(
        "<p style=\"font-size: 10px; color: #999; margin: 0 0 12px 0;\">Chatter post</p>",
    );
    html.append(
        "<div style=\"background: #f9f9f9; padding: 12px; border-radius: 4px; border-left: 3px solid #ff7a59; margin: 0 0 12px 0; font-size: 13px; line-height: 1.6;\">",
    );
    html.append("<p style=\"font-size: 11px; color: #666; margin: 0 0 8px 0;\">");
    let fd = format_date(unit.feed_item.created_date.as_str());
    html.append(fd.as_str());
    html.append(" - ");
    let fu = format_user(unit.feed_item.created_by_id.as_str(), users);
    html.append(fu.as_str());
    html.append("</p>");
    html.append(unit.feed_item.body.as_str());
    html.append("</div>");
    let cn = unit.comments.len();
    if cn > 0 {
        html.append(
            "<p style=\"font-size: 12px; font-weight: 600; margin: 16px 0 8px 0;\">Comments (",
        );
        let count = usize_to_string(cn);
        html.append(count.as_str());
        html.append(")</p>");
        let ghost before = html@;
        let mut k: usize = 0;
        while k < cn
            invariant
                0 <= k <= cn,
                cn == unit.comments@.len(),
                users.wf(),
                um == users@.map_values(|u: UserRecord| u.view()),
                html@ == before + spec_comments_html(unit.comments@.take(k as int), um),
            decreases cn - k,
        {
            let ghost c = unit.comments@[k as int];
            proof {
                assert(unit.comments@.take(k + 1).drop_last() =~= unit.comments@.take(
                    k as int,
                ));
                assert(unit.comments@.take(k + 1).last() == c);
            }
            html.append(
                "<div style=\"background: #fafafa; padding: 10px; border-radius: 4px; border-left: 3px solid #ccc; margin-top: 8px;\">",
            );
            html.append("<p style=\"font-size: 11px; color: #666; margin: 0 0 6px 0;\">");
            let cd = format_date(unit.comments[k].created_date.as_str());
            html.append(cd.as_str());
            html.append(" - ");
            let cu = format_user(unit.comments[k].created_by_id.as_str(), users);
            html.append(cu.as_str());
            html.append("</p>");
            html.append("<div style=\"font-size: 12px; line-height: 1.5;\">");
            html.append(unit.comments[k].comment_body.as_str());
            html.append("</div>");
            html.append("</div>");
            proof {
                assert(html@ =~= before + spec_comments_html(unit.comments@.take(k + 1), um));
            }
            k += 1;
        }
        proof {
            assert(unit.comments@.take(cn as int) =~= unit.comments@);
        }
    }
    html.append("<hr style=\"margin: 16px 0; border: none; border-top: 1px solid #e5e5e5;\">");
    html.append("<p style=\"font-size: 10px; color: #999; margin: 0;\">Salesforce FeedItem ID: ");
    html.append(unit.feed_item.id.as_str());
    html.append("</p>");
    proof {
        assert(html@ =~= spec_note_html(
            unit.feed_item.body@,
            unit.feed_item.id@,
            unit.feed_item.created_date@,
            unit.feed_item.created_by_id@,
            unit.comments@,
            um,
        ));
    }
    html
}

} // verus!
