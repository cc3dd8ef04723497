//! The roles of a guild, and how its administrators are called for.

use vstd::prelude::*;

use crate::ids::role_mention;
use crate::ids::RoleId;
use crate::text::decimal_text;
use crate::text::join;
use crate::text::join_text;
use crate::text::lemma_occurs_joined;
use crate::text::occurs;

verus! {

/// A role in a guild.
#[derive(Clone, Copy, Debug, PartialEq, Eq, Structural)]
pub struct Role {
    pub id: RoleId,
    /// Whether those who have the role administer the guild.
    pub administrator: bool,
}

/// The mentions of the administrators' roles.
pub open spec fn admin_mentions(roles: Seq<Role>) -> Seq<Seq<char>>
    decreases roles.len(),
{
    if roles.len() == 0 {
        Seq::empty()
    } else {
        let before = admin_mentions(roles.drop_last());
        if roles.last().administrator {
            before.push(role_mention(roles.last().id))
        } else {
            before
        }
    }
}

/// The mentions of the administrators' roles, with spaces between them.
pub open spec fn admins_text(roles: Seq<Role>) -> Seq<char> {
    join_text(admin_mentions(roles), " "@)
}

/// Writes the mentions of the administrators' roles, if there are any.
pub fn mention_admins(roles: &Vec<Role>) -> (text: Option<String>)
    ensures
        match text {
            Some(text) => admin_mentions(roles@).len() > 0 && text@ == admins_text(roles@),
            None => admin_mentions(roles@).len() == 0,
        },
{
    let mut mentions: Vec<String> = Vec::new();
    let ghost text_of = |mention: String| mention@;
    let mut i: usize = 0;
    assert(roles@.take(0) =~= Seq::empty());
    assert(mentions@.map_values(text_of) =~= admin_mentions(roles@.take(0)));
    while i < roles.len()
        invariant
            i <= roles@.len(),
            text_of == (|mention: String| mention@),
            mentions@.map_values(text_of) == admin_mentions(roles@.take(i as int)),
        decreases roles@.len() - i,
    {
        assert(roles@.take(i + 1).drop_last() =~= roles@.take(i as int));
        let ghost before = mentions@;
        if roles[i].administrator {
            mentions.push(roles[i].id.mention());
            assert(mentions@.map_values(text_of) =~= before.map_values(text_of).push(
                role_mention(roles@[i as int].id),
            ));
        }
        i = i + 1;
    }
    assert(roles@.take(i as int) =~= roles@);
    assert(mentions@.map_values(text_of).len() == mentions@.len());
    if mentions.is_empty() {
        None
    } else {
        Some(join(&mentions, " "))
    }
}

/// There is no mention just when no role administers the guild.
pub proof fn lemma_admin_mentions_none(roles: Seq<Role>)
    ensures
        admin_mentions(roles).len() == 0 <==> forall|i: int|
            0 <= i < roles.len() ==> !(#[trigger] roles[i]).administrator,
    decreases roles.len(),
{
    if roles.len() > 0 {
        let before = roles.drop_last();
        lemma_admin_mentions_none(before);
        if admin_mentions(roles).len() == 0 {
            assert forall|i: int| 0 <= i < roles.len() implies !(
            #[trigger] roles[i]).administrator by {
                if i < before.len() {
                    assert(before[i] == roles[i]);
                }
            }
        } else if roles.last().administrator {
            assert(roles[roles.len() - 1].administrator);
        } else {
            let i = choose|i: int| 0 <= i < before.len() && (#[trigger] before[i]).administrator;
            assert(roles[i].administrator);
        }
    }
}

/// The mentions are those of the roles that administer the guild, and of no others, in order.
pub proof fn law_administrators_are_mentioned(roles: Seq<Role>)
    ensures
        admin_mentions(roles) == roles.filter(|role: Role| role.administrator).map_values(
            |role: Role| "<@&"@ + decimal_text(role.id.0 as nat) + ">"@,
        ),
    decreases roles.len(),
{
    reveal(Seq::filter);
    let admin = |role: Role| role.administrator;
    let mention = |role: Role| "<@&"@ + decimal_text(role.id.0 as nat) + ">"@;
    if roles.len() > 0 {
        let before = roles.drop_last();
        law_administrators_are_mentioned(before);
        assert(before.filter(admin).push(roles.last()).map_values(mention) =~= before.filter(
            admin,
        ).map_values(mention).push(mention(roles.last())));
    } else {
        assert(admin_mentions(roles) =~= roles.filter(admin).map_values(mention));
    }
}

/// The mention of every role that administers the guild stands in the text that calls for the
/// administrators.
pub proof fn law_every_administrator_is_called(roles: Seq<Role>, i: int)
    requires
        0 <= i < roles.len(),
        roles[i].administrator,
    ensures
        occurs("<@&"@ + decimal_text(roles[i].id.0 as nat) + ">"@, admins_text(roles)),
{
    let k = lemma_admin_mention_at(roles, i);
    lemma_occurs_joined(admin_mentions(roles), " "@, k);
}

proof fn lemma_admin_mention_at(roles: Seq<Role>, i: int) -> (k: int)
    requires
        0 <= i < roles.len(),
        roles[i].administrator,
    ensures
        0 <= k < admin_mentions(roles).len(),
        admin_mentions(roles)[k] == role_mention(roles[i].id),
    decreases roles.len(),
{
    let before = roles.drop_last();
    if i < before.len() {
        lemma_admin_mention_at(before, i)
    } else {
        admin_mentions(before).len() as int
    }
}

} // verus!
