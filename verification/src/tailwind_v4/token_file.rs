//! The variables a whole token file sets.

use vstd::prelude::*;
use crate::json::{field, get_str, Json};
use crate::ordered_map::{insert_all, lemma_insert_all_concat};
use crate::tailwind_v4::color::{collect_color_token, color_token_spec};
use crate::tailwind_v4::css::CssVariables;
use crate::tailwind_v4::radius::{collect_radius_token, radius_token_spec};
use crate::tailwind_v4::spacing::{collect_spacing_token, spacing_token_spec};
use crate::tailwind_v4::token::{
    chain, group_not_object, group_type_spec, is_metadata_key, is_metadata_key_spec, msg_group_not_object,
    opt_view,
};
use crate::tailwind_v4::typography::{collect_typography_token, typography_token_spec};
use crate::text::{cat3, cat5, str_eq};

verus! {

/// The token groups a token file may hold.
#[derive(Clone, Copy)]
pub enum GroupKind {
    Colors,
    Spacing,
    Radius,
    Typography,
}

/// The kind of a group, by its name.
pub open spec fn group_kind_spec(name: Seq<char>) -> Option<GroupKind> {
    if name == "colors"@ {
        Some(GroupKind::Colors)
    } else if name == "spacing"@ {
        Some(GroupKind::Spacing)
    } else if name == "radius"@ {
        Some(GroupKind::Radius)
    } else if name == "typography"@ {
        Some(GroupKind::Typography)
    } else {
        None
    }
}

/// The variables one token of a group of `kind` sets.
#[verifier::opaque]
pub open spec fn token_spec(
    kind: GroupKind,
    reference: Seq<char>,
    group: Seq<char>,
    name: Seq<char>,
    token: Json,
    group_type: Option<Seq<char>>,
) -> Result<Seq<(Seq<char>, Seq<char>)>, Seq<char>> {
    match kind {
        GroupKind::Colors => color_token_spec(reference, group, name, token, group_type),
        GroupKind::Spacing => spacing_token_spec(reference, group, name, token, group_type),
        GroupKind::Radius => radius_token_spec(reference, group, name, token, group_type),
        GroupKind::Typography => typography_token_spec(reference, group, name, token, group_type),
    }
}

/// The variables the tokens among `members` set, in order; members whose name
/// starts with `$` are skipped.
pub open spec fn members_spec(
    kind: GroupKind,
    reference: Seq<char>,
    group: Seq<char>,
    members: Seq<(String, Json)>,
    group_type: Option<Seq<char>>,
) -> Result<Seq<(Seq<char>, Seq<char>)>, Seq<char>>
    decreases members.len(),
{
    if members.len() == 0 {
        Ok(Seq::empty())
    } else if is_metadata_key_spec(members[0].0@) {
        members_spec(kind, reference, group, members.drop_first(), group_type)
    } else {
        chain(
            token_spec(kind, reference, group, members[0].0@, members[0].1, group_type),
            members_spec(kind, reference, group, members.drop_first(), group_type),
        )
    }
}

/// The variables a token group sets; the group must be an object.
#[verifier::opaque]
pub open spec fn group_spec(kind: GroupKind, reference: Seq<char>, group: Seq<char>, value: Json) -> Result<Seq<(Seq<char>, Seq<char>)>, Seq<char>> {
    match value {
        Json::Object(members) => members_spec(kind, reference, group, members@, group_type_spec(members@)),
        _ => Err(msg_group_not_object(reference, group)),
    }
}

/// The variables the groups among `members` set, in order.
pub open spec fn file_members_spec(reference: Seq<char>, members: Seq<(String, Json)>) -> Result<Seq<(Seq<char>, Seq<char>)>, Seq<char>>
    decreases members.len(),
{
    if members.len() == 0 {
        Ok(Seq::empty())
    } else if is_metadata_key_spec(members[0].0@) {
        file_members_spec(reference, members.drop_first())
    } else {
        match group_kind_spec(members[0].0@) {
            Some(kind) => chain(
                group_spec(kind, reference, members[0].0@, members[0].1),
                file_members_spec(reference, members.drop_first()),
            ),
            None => Err("unsupported token group `"@ + members[0].0@ + "` in token source `"@ + reference + "`"@),
        }
    }
}

/// The variables a token file sets, in order: the file is an object whose
/// members are `colors`, `spacing`, `radius` and `typography` groups (and `$`
/// metadata).
pub open spec fn token_file_spec(reference: Seq<char>, file: Json) -> Result<Seq<(Seq<char>, Seq<char>)>, Seq<char>> {
    match file {
        Json::Object(members) => file_members_spec(reference, members@),
        _ => Err("invalid token source `"@ + reference + "`: expected a JSON object"@),
    }
}

/// Sets the variables of one token.
fn collect_token(
    kind: GroupKind,
    reference: &str,
    group: &str,
    name: &str,
    token: &Json,
    group_type: Option<&String>,
    variables: &mut CssVariables,
) -> (r: Result<(), String>)
    ensures
        match token_spec(kind, reference@, group@, name@, *token, opt_view(group_type)) {
            Ok(a) => r is Ok && final(variables).entries() == insert_all(old(variables).entries(), a),
            Err(e) => r matches Err(m) && m@ == e,
        },
{
    reveal(token_spec);
    match kind {
        GroupKind::Colors => collect_color_token(reference, group, name, token, group_type, variables),
        GroupKind::Spacing => collect_spacing_token(reference, group, name, token, group_type, variables),
        GroupKind::Radius => collect_radius_token(reference, group, name, token, group_type, variables),
        GroupKind::Typography => collect_typography_token(reference, group, name, token, group_type, variables),
    }
}

/// Sets the variables of every token in a group.
pub fn collect_group_variables(
    kind: GroupKind,
    reference: &str,
    group: &str,
    value: &Json,
    variables: &mut CssVariables,
) -> (r: Result<(), String>)
    ensures
        match group_spec(kind, reference@, group@, *value) {
            Ok(a) => r is Ok && final(variables).entries() == insert_all(old(variables).entries(), a),
            Err(e) => r matches Err(m) && m@ == e,
        },
{
    reveal(group_spec);
    let members = match value {
        Json::Object(m) => m,
        _ => return Err(group_not_object(reference, group)),
    };
    let group_type = match field(members.as_slice(), "$type") {
        Some(Json::Str(t)) => Some(t),
        _ => None,
    };
    assert(opt_view(group_type) == group_type_spec(members@));
    let ghost gt = group_type_spec(members@);
    assert(group_spec(kind, reference@, group@, *value) == members_spec(kind, reference@, group@, members@, gt));
    let ghost e0 = variables.entries();
    let ghost mut done: Seq<(Seq<char>, Seq<char>)> = Seq::empty();
    let mut i: usize = 0;
    assert(members@.skip(0) == members@);
    assert(insert_all(e0, done) == e0);
    while i < members.len()
        invariant
            i <= members@.len(),
            *value == Json::Object(*members),
            group_spec(kind, reference@, group@, *value) == members_spec(kind, reference@, group@, members@, gt),
            opt_view(group_type) == gt,
            variables.entries() == insert_all(e0, done),
            members_spec(kind, reference@, group@, members@, gt) == chain(
                Ok(done),
                members_spec(kind, reference@, group@, members@.skip(i as int), gt),
            ),
        decreases members@.len() - i,
    {
        assert(members@.skip(i as int).drop_first() == members@.skip(i + 1int));
        assert(members@.skip(i as int)[0] == members@[i as int]);
        let name = &members[i].0;
        if !is_metadata_key(name.as_str()) {
            let ghost tr = token_spec(kind, reference@, group@, name@, members@[i as int].1, gt);
            assert(members_spec(kind, reference@, group@, members@.skip(i as int), gt) == chain(
                tr,
                members_spec(kind, reference@, group@, members@.skip(i + 1int), gt),
            ));
            match collect_token(kind, reference, group, name.as_str(), &members[i].1, group_type, variables) {
                Ok(()) => {},
                Err(e) => return Err(e),
            }
            proof {
                lemma_insert_all_concat(e0, done, tr->Ok_0);
                match members_spec(kind, reference@, group@, members@.skip(i + 1int), gt) {
                    Ok(b) => {
                        assert(done + tr->Ok_0 + b =~= done + (tr->Ok_0 + b));
                    },
                    Err(_) => {},
                }
                done = done + tr->Ok_0;
            }
        }
        i = i + 1;
    }
    proof {
        assert(done + Seq::<(Seq<char>, Seq<char>)>::empty() =~= done);
    }
    Ok(())
}

/// Sets the variables of every group in a token file.
pub fn collect_token_file_variables(reference: &str, token_file: &Json, variables: &mut CssVariables) -> (r: Result<(), String>)
    ensures
        match token_file_spec(reference@, *token_file) {
            Ok(a) => r is Ok && final(variables).entries() == insert_all(old(variables).entries(), a),
            Err(e) => r matches Err(m) && m@ == e,
        },
{
    let members = match token_file {
        Json::Object(m) => m,
        _ => return Err(cat3("invalid token source `", reference, "`: expected a JSON object")),
    };
    let ghost e0 = variables.entries();
    let ghost mut done: Seq<(Seq<char>, Seq<char>)> = Seq::empty();
    let mut i: usize = 0;
    assert(members@.skip(0) == members@);
    assert(insert_all(e0, done) == e0);
    while i < members.len()
        invariant
            i <= members@.len(),
            *token_file == Json::Object(*members),
            variables.entries() == insert_all(e0, done),
            file_members_spec(reference@, members@) == chain(Ok(done), file_members_spec(reference@, members@.skip(i as int))),
        decreases members@.len() - i,
    {
        assert(members@.skip(i as int).drop_first() == members@.skip(i + 1int));
        assert(members@.skip(i as int)[0] == members@[i as int]);
        let group = &members[i].0;
        if !is_metadata_key(group.as_str()) {
            let g = group.as_str();
            let kind = if str_eq(g, "colors") {
                GroupKind::Colors
            } else if str_eq(g, "spacing") {
                GroupKind::Spacing
            } else if str_eq(g, "radius") {
                GroupKind::Radius
            } else if str_eq(g, "typography") {
                GroupKind::Typography
            } else {
                let e = cat5("unsupported token group `", g, "` in token source `", reference, "`");
                assert(group_kind_spec(group@) is None);
                assert(file_members_spec(reference@, members@.skip(i as int)) == Err::<Seq<(Seq<char>, Seq<char>)>, Seq<char>>(e@));
                return Err(e);
            };
            assert(group_kind_spec(group@) == Some(kind));
            let ghost gr = group_spec(kind, reference@, group@, members@[i as int].1);
            assert(file_members_spec(reference@, members@.skip(i as int)) == chain(
                gr,
                file_members_spec(reference@, members@.skip(i + 1int)),
            ));
            match collect_group_variables(kind, reference, g, &members[i].1, variables) {
                Ok(()) => {},
                Err(e) => return Err(e),
            }
            proof {
                lemma_insert_all_concat(e0, done, gr->Ok_0);
                match file_members_spec(reference@, members@.skip(i + 1int)) {
                    Ok(b) => {
                        assert(done + gr->Ok_0 + b =~= done + (gr->Ok_0 + b));
                    },
                    Err(_) => {},
                }
                done = done + gr->Ok_0;
            }
        }
        i = i + 1;
    }
    proof {
        assert(done + Seq::<(Seq<char>, Seq<char>)>::empty() =~= done);
    }
    Ok(())
}

} // verus!
