use vstd::prelude::*;
use vstd::multiset::Multiset;
use vstd::seq_lib::group_to_multiset_ensures;
use crate::records::{AttachmentView, FileAttachment, Message, MessageView};
use crate::strorder::{
    lemma_str_le_refl, lemma_str_le_total, lemma_str_le_trans, str_le, str_le_exec,
};

verus! {

/// One row of the joined messages/attachments relation, as the store hands
/// it back: the message's fields, then the fields of at most one attachment.
/// A row without an attachment carries empty attachment fields and size 0.
pub struct MessageRow {
    pub id: String,
    pub chat_id: String,
    pub content: String,
    pub role: String,
    pub created_at: String,
    pub attachment_id: String,
    pub attachment_name: String,
    pub attachment_content: String,
    pub attachment_kind: String,
    pub attachment_size: i64,
}

/// The mathematical content of a `MessageRow`.
#[verifier::ext_equal]
pub ghost struct RowView {
    pub id: Seq<char>,
    pub chat_id: Seq<char>,
    pub content: Seq<char>,
    pub role: Seq<char>,
    pub created_at: Seq<char>,
    pub attachment_id: Seq<char>,
    pub attachment_name: Seq<char>,
    pub attachment_content: Seq<char>,
    pub attachment_kind: Seq<char>,
    pub attachment_size: int,
}

impl View for MessageRow {
    type V = RowView;

    open spec fn view(&self) -> RowView {
        RowView {
            id: self.id@,
            chat_id: self.chat_id@,
            content: self.content@,
            role: self.role@,
            created_at: self.created_at@,
            attachment_id: self.attachment_id@,
            attachment_name: self.attachment_name@,
            attachment_content: self.attachment_content@,
            attachment_kind: self.attachment_kind@,
            attachment_size: self.attachment_size as int,
        }
    }
}

/// The views of a sequence of rows.
pub open spec fn row_views(rows: Seq<MessageRow>) -> Seq<RowView> {
    rows.map_values(|r: MessageRow| r@)
}

/// The views of a sequence of messages.
pub open spec fn msg_views(ms: Seq<Message>) -> Seq<MessageView> {
    ms.map_values(|m: Message| m@)
}

/// Whether the row carries an attachment: the join pads rows of messages
/// without one with an empty attachment identifier.
pub open spec fn has_attachment(r: RowView) -> bool {
    r.attachment_id.len() > 0
}

/// The attachment a row carries.
pub open spec fn att_of(r: RowView) -> AttachmentView {
    AttachmentView {
        name: r.attachment_name,
        content: r.attachment_content,
        kind: r.attachment_kind,
        size: r.attachment_size,
    }
}

/// All attachments of the message with the given identifier, in row order.
pub open spec fn atts_for(rs: Seq<RowView>, id: Seq<char>) -> Seq<AttachmentView> {
    rs.filter(|r: RowView| r.id == id && has_attachment(r)).map_values(|r: RowView| att_of(r))
}

/// The message one first-occurrence row yields, given the attachments of
/// its identifier: the row's scalar fields, and the attachments — `None`
/// rather than an empty list when there are none.
pub open spec fn mk_msg(r: RowView, atts: Seq<AttachmentView>) -> MessageView {
    MessageView {
        id: r.id,
        chat_id: r.chat_id,
        content: r.content,
        role: r.role,
        created_at: r.created_at,
        attachments: if atts.len() == 0 {
            None
        } else {
            Some(atts)
        },
    }
}

/// The grouping of the rows `rs` (a prefix of `full`): one message per
/// distinct identifier, in first-occurrence order, carrying the scalar
/// fields of the identifier's first row and the attachments of all the
/// identifier's rows in `full`, in row order.
pub open spec fn grouped(rs: Seq<RowView>, full: Seq<RowView>) -> Seq<MessageView>
    decreases rs.len(),
{
    if rs.len() == 0 {
        Seq::empty()
    } else {
        let prefix = grouped(rs.drop_last(), full);
        if exists|j: int| 0 <= j < rs.len() - 1 && rs[j].id == rs.last().id {
            prefix
        } else {
            prefix.push(mk_msg(rs.last(), atts_for(full, rs.last().id)))
        }
    }
}

/// Filtering a sequence extended by one element keeps the old result and
/// appends the element exactly when it satisfies the predicate.
proof fn lemma_filter_push<A>(s: Seq<A>, x: A, pred: spec_fn(A) -> bool)
    ensures
        s.push(x).filter(pred) == if pred(x) {
            s.filter(pred).push(x)
        } else {
            s.filter(pred)
        },
{
    reveal(Seq::filter);
    assert(s.push(x).drop_last() =~= s);
    assert(s.push(x).last() == x);
}

/// Collects, in row order, the attachments of the message with the given
/// identifier.
fn collect_atts(rows: &Vec<MessageRow>, id: &String) -> (out: Vec<FileAttachment>)
    ensures
        out@.map_values(|a: FileAttachment| a@) == atts_for(row_views(rows@), id@),
{
    let ghost rv = row_views(rows@);
    let mut out: Vec<FileAttachment> = Vec::new();
    let mut j: usize = 0;
    while j < rows.len()
        invariant
            rv == row_views(rows@),
            0 <= j <= rows@.len(),
            rv.len() == rows@.len(),
            out@.map_values(|a: FileAttachment| a@) == rv.take(j as int).filter(
                |r: RowView| r.id == id@ && has_attachment(r),
            ).map_values(|r: RowView| att_of(r)),
        decreases rows@.len() - j,
    {
        let ghost pre = rv.take(j as int);
        proof {
            assert(rv.take(j as int + 1) =~= rv.take(j as int).push(rv[j as int]));
            lemma_filter_push(pre, rv[j as int], |r: RowView| r.id == id@ && has_attachment(r));
        }
        let row = &rows[j];
        if !row.attachment_id.as_str().is_empty() && row.id == *id {
            let att = FileAttachment {
                name: row.attachment_name.clone(),
                content: row.attachment_content.clone(),
                kind: row.attachment_kind.clone(),
                size: row.attachment_size,
            };
            proof {
                assert(att@ == att_of(rv[j as int]));
            }
            out.push(att);
            proof {
                assert(out@.map_values(|a: FileAttachment| a@) =~= pre.filter(
                    |r: RowView| r.id == id@ && has_attachment(r),
                ).map_values(|r: RowView| att_of(r)).push(att_of(rv[j as int])));
                assert(pre.push(rv[j as int]).filter(
                    |r: RowView| r.id == id@ && has_attachment(r),
                ).map_values(|r: RowView| att_of(r)) =~= pre.filter(
                    |r: RowView| r.id == id@ && has_attachment(r),
                ).map_values(|r: RowView| att_of(r)).push(att_of(rv[j as int])));
            }
        } else {
            proof {
                assert(!(rv[j as int].id == id@ && has_attachment(rv[j as int])));
            }
        }
        j += 1;
    }
    proof {
        assert(rv.take(rv.len() as int) =~= rv);
    }
    out
}

/// Extending the grouped prefix by one row: a row whose identifier was
/// seen before adds nothing, a fresh one appends its message.
proof fn lemma_grouped_step(rv: Seq<RowView>, i: int)
    requires
        0 <= i < rv.len(),
    ensures
        grouped(rv.take(i + 1), rv) == if exists|j: int| 0 <= j < i && rv[j].id == rv[i].id {
            grouped(rv.take(i), rv)
        } else {
            grouped(rv.take(i), rv).push(mk_msg(rv[i], atts_for(rv, rv[i].id)))
        },
{
    let s = rv.take(i + 1);
    assert(s.drop_last() =~= rv.take(i));
    assert(s.last() == rv[i]);
    assert forall|j: int| 0 <= j < i implies #[trigger] s[j] == rv[j] by {}
    if exists|j: int| 0 <= j < i && rv[j].id == rv[i].id {
        let j = choose|j: int| 0 <= j < i && rv[j].id == rv[i].id;
        assert(s[j].id == s.last().id);
    } else {
        assert forall|j: int| 0 <= j < s.len() - 1 implies (#[trigger] s[j]).id != s.last().id by {
            assert(s[j] == rv[j]);
        }
    }
}

/// The views of a sequence of messages extended by one.
proof fn lemma_msg_views_push(ms: Seq<Message>, m: Message)
    ensures
        msg_views(ms.push(m)) =~= msg_views(ms).push(m@),
{
}

/// Groups the rows into one message per distinct identifier, in first
/// occurrence order: the scalar fields come from the first row bearing the
/// identifier, the attachments from every row bearing it.
fn group_rows(rows: &Vec<MessageRow>) -> (out: Vec<Message>)
    ensures
        msg_views(out@) == grouped(row_views(rows@), row_views(rows@)),
{
    let ghost rv = row_views(rows@);
    let mut out: Vec<Message> = Vec::new();
    let mut i: usize = 0;
    while i < rows.len()
        invariant
            rv == row_views(rows@),
            rv.len() == rows@.len(),
            0 <= i <= rows@.len(),
            msg_views(out@) == grouped(rv.take(i as int), rv),
        decreases rows@.len() - i,
    {
        let mut fresh = true;
        let mut j: usize = 0;
        while fresh && j < i
            invariant
                0 <= j <= i < rows@.len(),
                rv == row_views(rows@),
                rv.len() == rows@.len(),
                fresh ==> forall|t: int| 0 <= t < j ==> (#[trigger] rv[t]).id != rv[i as int].id,
                !fresh ==> exists|t: int| 0 <= t < i && (#[trigger] rv[t]).id == rv[i as int].id,
            decreases i - j + (if fresh { 1int } else { 0int }),
        {
            proof {
                assert(rv[j as int] == rows@[j as int]@);
                assert(rv[i as int] == rows@[i as int]@);
            }
            if rows[j].id == rows[i].id {
                fresh = false;
                proof {
                    assert(rv[j as int].id == rv[i as int].id);
                }
            } else {
                j += 1;
            }
        }
        let ghost out_pre = out@;
        proof {
            lemma_grouped_step(rv, i as int);
        }
        if fresh {
            let row = &rows[i];
            let atts = collect_atts(rows, &row.id);
            let ghost attvs = atts@.map_values(|a: FileAttachment| a@);
            let msg_atts: Option<Vec<FileAttachment>> = if atts.len() == 0 {
                Option::None
            } else {
                Option::Some(atts)
            };
            let msg = Message {
                id: row.id.clone(),
                chat_id: row.chat_id.clone(),
                content: row.content.clone(),
                role: row.role.clone(),
                created_at: row.created_at.clone(),
                attachments: msg_atts,
            };
            proof {
                assert(attvs.len() == atts_for(rv, rv[i as int].id).len());
                assert(msg@ =~= mk_msg(rv[i as int], atts_for(rv, rv[i as int].id)));
            }
            out.push(msg);
            proof {
                lemma_msg_views_push(out_pre, msg);
                assert(!(exists|t: int|
                    0 <= t < i && (#[trigger] rv[t]).id == rv[i as int].id));
                assert(msg_views(out@) == grouped(rv.take(i as int + 1), rv));
            }
        } else {
            proof {
                assert(msg_views(out@) == grouped(rv.take(i as int + 1), rv));
            }
        }
        i += 1;
    }
    proof {
        assert(rv.take(rv.len() as int) =~= rv);
    }
    out
}

/// Whether the messages stand in nondecreasing creation-time order.
pub open spec fn sorted_by_created(ms: Seq<MessageView>) -> bool {
    forall|k1: int, k2: int|
        0 <= k1 < k2 < ms.len() ==> str_le(
            (#[trigger] ms[k1]).created_at,
            (#[trigger] ms[k2]).created_at,
        )
}

/// Orders messages by creation time, selecting the least remaining one at
/// each step; the result holds exactly the given messages.
fn sort_by_created(input: Vec<Message>) -> (out: Vec<Message>)
    ensures
        msg_views(out@).to_multiset() == msg_views(input@).to_multiset(),
        sorted_by_created(msg_views(out@)),
{
    let mut v = input;
    let mut out: Vec<Message> = Vec::new();
    proof {
        broadcast use group_to_multiset_ensures, vstd::multiset::group_multiset_axioms;

        assert(msg_views(out@).to_multiset().len() == 0);
        assert(msg_views(out@).to_multiset().add(msg_views(v@).to_multiset()) =~= msg_views(
            v@,
        ).to_multiset());
    }
    while v.len() > 0
        invariant
            msg_views(out@).to_multiset().add(msg_views(v@).to_multiset()) == msg_views(
                input@,
            ).to_multiset(),
            sorted_by_created(msg_views(out@)),
            forall|k: int, t: int|
                0 <= k < out@.len() && 0 <= t < v@.len() ==> str_le(
                    (#[trigger] msg_views(out@)[k]).created_at,
                    (#[trigger] msg_views(v@)[t]).created_at,
                ),
        decreases v@.len(),
    {
        let ghost vv = msg_views(v@);
        let mut best: usize = 0;
        let mut t: usize = 1;
        proof {
            lemma_str_le_refl(vv[0].created_at);
        }
        while t < v.len()
            invariant
                vv == msg_views(v@),
                vv.len() == v@.len(),
                0 < v@.len(),
                0 <= best < t,
                t <= v@.len(),
                forall|j: int|
                    0 <= j < t ==> str_le(
                        vv[best as int].created_at,
                        (#[trigger] vv[j]).created_at,
                    ),
            decreases v@.len() - t,
        {
            if !str_le_exec(v[best].created_at.as_str(), v[t].created_at.as_str()) {
                proof {
                    lemma_str_le_total(vv[best as int].created_at, vv[t as int].created_at);
                    assert forall|j: int| 0 <= j < t + 1 implies str_le(
                        vv[t as int].created_at,
                        (#[trigger] vv[j]).created_at,
                    ) by {
                        if j < t {
                            lemma_str_le_trans(
                                vv[t as int].created_at,
                                vv[best as int].created_at,
                                vv[j].created_at,
                            );
                        } else {
                            lemma_str_le_refl(vv[t as int].created_at);
                        }
                    }
                }
                best = t;
            } else {
                proof {
                    lemma_str_le_refl(vv[t as int].created_at);
                }
            }
            t += 1;
        }
        let ghost out_pre = out@;
        let ghost v_pre = v@;
        let m = v.remove(best);
        proof {
            broadcast use group_to_multiset_ensures, vstd::multiset::group_multiset_axioms;

            assert(msg_views(v@) =~= msg_views(v_pre).remove(best as int));
            assert(vv[best as int] == v_pre[best as int]@);
            assert(vv.contains(vv[best as int]));
        }
        out.push(m);
        proof {
            broadcast use group_to_multiset_ensures, vstd::multiset::group_multiset_axioms;

            assert(m@ == vv[best as int]);
            assert(msg_views(out@) =~= msg_views(out_pre).push(m@));
            let a = msg_views(out_pre).to_multiset();
            let b = vv.to_multiset();
            assert(b.count(m@) > 0);
            assert(msg_views(out@).to_multiset() =~= a.insert(m@));
            assert(msg_views(v@).to_multiset() =~= b.remove(m@));
            assert(a.insert(m@).add(b.remove(m@)) =~= a.add(b)) by {
                assert forall|y: MessageView|
                    a.insert(m@).add(b.remove(m@)).count(y) == a.add(b).count(y) by {
                    assert(a.insert(m@).count(y) == a.add(
                        Multiset::<MessageView>::singleton(m@),
                    ).count(y));
                    assert(b.remove(m@).count(y) == b.sub(
                        Multiset::<MessageView>::singleton(m@),
                    ).count(y));
                    if y == m@ {
                        assert(Multiset::<MessageView>::singleton(m@).count(y) == 1);
                    } else {
                        assert(Multiset::<MessageView>::singleton(m@).count(y) == 0);
                    }
                }
            }
            assert forall|k: int, u: int|
                0 <= k < out@.len() && 0 <= u < v@.len() implies str_le(
                (#[trigger] msg_views(out@)[k]).created_at,
                (#[trigger] msg_views(v@)[u]).created_at,
            ) by {
                let shifted: int = if u < best as int {
                    u
                } else {
                    u + 1
                };
                assert(msg_views(v@)[u] == vv[shifted]);
                if k < out_pre.len() {
                    assert(msg_views(out@)[k] == msg_views(out_pre)[k]);
                } else {
                    assert(msg_views(out@)[k] == vv[best as int]);
                }
            }
            assert forall|k1: int, k2: int| 0 <= k1 < k2 < out@.len() implies str_le(
                (#[trigger] msg_views(out@)[k1]).created_at,
                (#[trigger] msg_views(out@)[k2]).created_at,
            ) by {
                if k2 == out_pre.len() as int {
                    assert(msg_views(out@)[k1] == msg_views(out_pre)[k1]);
                    assert(msg_views(out@)[k2] == vv[best as int]);
                }
            }
        }
    }
    proof {
        broadcast use group_to_multiset_ensures, vstd::multiset::group_multiset_axioms;

        assert(msg_views(v@).to_multiset().len() == 0);
        assert(msg_views(out@).to_multiset().add(msg_views(v@).to_multiset()) =~= msg_views(
            out@,
        ).to_multiset());
    }
    out
}

/// Builds the messages of a chat from the joined rows the store returns:
/// exactly the messages of the grouping — one per distinct identifier, with
/// the scalar fields of the identifier's first row and the attachments of
/// all its rows in row order — reordered so that creation times ascend.
pub fn assemble_messages(rows: &Vec<MessageRow>) -> (out: Vec<Message>)
    ensures
        msg_views(out@).to_multiset() == grouped(row_views(rows@), row_views(rows@)).to_multiset(),
        msg_views(out@).len() == grouped(row_views(rows@), row_views(rows@)).len(),
        sorted_by_created(msg_views(out@)),
{
    let grouped_msgs = group_rows(rows);
    let out = sort_by_created(grouped_msgs);
    proof {
        broadcast use group_to_multiset_ensures;

        assert(msg_views(out@).len() == msg_views(out@).to_multiset().len());
        assert(grouped(row_views(rows@), row_views(rows@)).len() == grouped(
            row_views(rows@),
            row_views(rows@),
        ).to_multiset().len());
    }
    out
}

} // verus!
