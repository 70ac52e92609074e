//! What a profile does to a hello, and what it leaves alone.

use vstd::prelude::*;

use crate::grease::{reserved, Grease};
use crate::hello::{
    entries_are_written_in_order, entries_bytes, entries_round_trip, generated, groups_extension,
    leading, lemma_entry_within, lemma_shaped_len, numbers_are_written_in_order, own_suites, padding_extensions, shaped, shaped_groups, shaped_shares,
    shaped_suites, shaped_versions, shares_extension, u16_bytes, u16s_round_trip, unpadded,
    versions_extension, OfferModel, EMPTY_RENEGOTIATION_INFO_SCSV, PADDING,
};
use crate::profile::{padded_len, padding_body, Padding, ProfileModel, EXTENSION_HEADER};
use crate::wire::{
    find_entry, share_entries, u16s, KEY_SHARE, SUPPORTED_GROUPS, SUPPORTED_VERSIONS,
};

verus! {

/// A profile that asks for nothing.
pub open spec fn asks_nothing(profile: ProfileModel) -> bool {
    &&& !profile.grease
    &&& profile.prepend_extensions.len() == 0
    &&& profile.append_extensions.len() == 0
    &&& profile.padding is None
    &&& profile.cipher_suites is None
}

/// A profile that asks for nothing changes nothing: every list goes out as it was
/// offered, with the renegotiation signal behind the cipher suites where TLS 1.2
/// is offered, and no extension is added.
pub proof fn default_profile_changes_nothing(
    profile: ProfileModel,
    grease: Grease,
    offer: OfferModel,
)
    requires
        asks_nothing(profile),
    ensures
        shaped(profile, grease, offer).random == offer.random,
        shaped(profile, grease, offer).session_id == offer.session_id,
        shaped(profile, grease, offer).cipher_suites == if offer.tls12 {
            offer.cipher_suites.push(EMPTY_RENEGOTIATION_INFO_SCSV)
        } else {
            offer.cipher_suites
        },
        shaped(profile, grease, offer).extensions == seq![
            groups_extension(offer.named_groups),
            versions_extension(offer.versions),
            shares_extension(offer.key_shares),
        ] + offer.extensions + offer.trailing,
{
    assert(leading(profile, grease, offer) =~= seq![
        groups_extension(offer.named_groups),
        versions_extension(offer.versions),
        shares_extension(offer.key_shares),
    ] + offer.extensions);
    assert(shaped(profile, grease, offer).extensions =~= leading(profile, grease, offer)
        + offer.trailing);
}

/// GREASE goes first in every list that browsers grease, and what was meant to be
/// sent is still behind it, complete and in order. The GREASE key share is one
/// zero byte, and its group is the one that leads the supported groups.
pub proof fn grease_leads_every_list(profile: ProfileModel, grease: Grease, offer: OfferModel)
    requires
        profile.grease,
        grease.well_formed(),
    ensures
        reserved(shaped(profile, grease, offer).cipher_suites[0]),
        shaped(profile, grease, offer).cipher_suites.drop_first() == own_suites(profile, offer),
        reserved(shaped_groups(profile, grease, offer)[0]),
        shaped_groups(profile, grease, offer).drop_first() == offer.named_groups,
        reserved(shaped_versions(profile, grease, offer)[0]),
        shaped_versions(profile, grease, offer).drop_first() == offer.versions,
        shaped_shares(profile, grease, offer)[0].0 == shaped_groups(profile, grease, offer)[0],
        shaped_shares(profile, grease, offer)[0].1 == seq![0u8],
        shaped_shares(profile, grease, offer).drop_first() == offer.key_shares,
{
    assert(shaped_suites(profile, grease, offer).drop_first() =~= own_suites(profile, offer));
    assert(shaped_groups(profile, grease, offer).drop_first() =~= offer.named_groups);
    assert(shaped_versions(profile, grease, offer).drop_first() =~= offer.versions);
    assert(shaped_shares(profile, grease, offer).drop_first() =~= offer.key_shares);
    assert(Grease::KEY_SHARE_PAYLOAD@ =~= seq![0u8]);
}

/// The two GREASE extensions bracket the list: an empty one first, one with a
/// single zero byte behind everything but the padding and what is pinned to the
/// end, and the two are of different types.
pub proof fn grease_extensions_bracket_the_list(
    profile: ProfileModel,
    grease: Grease,
    offer: OfferModel,
)
    requires
        profile.grease,
        grease.well_formed(),
    ensures
        ({
            let list = shaped(profile, grease, offer).extensions;
            let last = leading(profile, grease, offer).len() - 1;
            &&& 0 < last < list.len()
            &&& reserved(list[0].0) && list[0].1.len() == 0
            &&& reserved(list[last].0) && list[last].1 == seq![0u8]
            &&& list[0].0 != list[last].0
            &&& list.skip(last + 1) == padding_extensions(
                profile.padding,
                unpadded(profile, grease, offer).body_len(),
            ) + offer.trailing
        }),
{
    let front = leading(profile, grease, offer);
    let list = shaped(profile, grease, offer).extensions;
    let pad = padding_extensions(profile.padding, unpadded(profile, grease, offer).body_len());
    assert(list =~= front + (pad + offer.trailing));
    assert(list.skip(front.len() as int) =~= pad + offer.trailing);
    assert(Grease::LAST_EXTENSION_PAYLOAD@ =~= seq![0u8]);
    assert(list[0] == front[0]);
    assert(list[front.len() - 1] == front[front.len() - 1]);
}

/// Verbatim extensions go where they were put: one block before everything
/// generated, one block behind it, with nothing but GREASE on their outer sides.
/// What the standard pins to the end stays at the end.
pub proof fn verbatim_extensions_go_where_they_were_put(
    profile: ProfileModel,
    grease: Grease,
    offer: OfferModel,
)
    ensures
        ({
            let list = shaped(profile, grease, offer).extensions;
            let g: int = if profile.grease {
                1
            } else {
                0
            };
            let made = generated(profile, grease, offer).len() as int;
            let before = profile.prepend_extensions.len() as int;
            let after = profile.append_extensions.len() as int;
            let pinned = offer.trailing.len() as int;
            &&& leading(profile, grease, offer).len() == before + made + after + 2 * g
            &&& list.subrange(g, g + before) == profile.prepend_extensions
            &&& list.subrange(g + before, g + before + made) == generated(profile, grease, offer)
            &&& list.subrange(g + before + made, g + before + made + after)
                == profile.append_extensions
            &&& list.subrange(list.len() - pinned, list.len() as int) == offer.trailing
        }),
{
    let front = leading(profile, grease, offer);
    let list = shaped(profile, grease, offer).extensions;
    let pad = padding_extensions(profile.padding, unpadded(profile, grease, offer).body_len());
    let made = generated(profile, grease, offer);
    let g: int = if profile.grease {
        1
    } else {
        0
    };
    let before = profile.prepend_extensions.len() as int;
    let after = profile.append_extensions.len() as int;
    assert(list =~= front + (pad + offer.trailing));
    assert(front.subrange(g, g + before) =~= profile.prepend_extensions);
    assert(front.subrange(g + before, g + before + made.len()) =~= made);
    assert(front.subrange(g + before + made.len(), g + before + made.len() + after)
        =~= profile.append_extensions);
    assert(list.subrange(g, g + before) =~= front.subrange(g, g + before));
    assert(list.subrange(g + before, g + before + made.len()) =~= front.subrange(
        g + before,
        g + before + made.len(),
    ));
    assert(list.subrange(g + before + made.len(), g + before + made.len() + after)
        =~= front.subrange(g + before + made.len(), g + before + made.len() + after));
    assert(list.subrange(list.len() - offer.trailing.len(), list.len() as int)
        =~= offer.trailing);
}

/// Padding brings the whole hello - GREASE, verbatim and pinned extensions counted
/// in - to the length that the rule gives. A hello inside the window with room for
/// the extension header comes out at the target length, and the padding is zeros.
pub proof fn padding_brings_the_hello_to_the_target_length(
    profile: ProfileModel,
    grease: Grease,
    offer: OfferModel,
)
    requires
        profile.padding is Some,
    ensures
        ({
            let rule = profile.padding->0;
            let plain = unpadded(profile, grease, offer).body_len();
            let hello = shaped(profile, grease, offer);
            &&& hello.body_len() == padded_len(rule, plain)
            &&& rule.only_above <= plain && plain + EXTENSION_HEADER <= rule.up_to
                ==> hello.body_len() == rule.up_to
            &&& plain < rule.only_above || rule.up_to <= plain ==> hello == unpadded(
                profile,
                grease,
                offer,
            )
            &&& rule.only_above <= plain < rule.up_to ==> {
                let pad = hello.extensions[leading(profile, grease, offer).len() as int];
                &&& pad.0 == PADDING
                &&& forall|i: int| 0 <= i < pad.1.len() ==> #[trigger] pad.1[i] == 0
            }
        }),
{
    lemma_shaped_len(profile, grease, offer);
    let rule = profile.padding->0;
    let plain = unpadded(profile, grease, offer);
    let hello = shaped(profile, grease, offer);
    match padding_body(rule, plain.body_len()) {
        Some(body) => {
            assert(hello.extensions[leading(profile, grease, offer).len() as int] == (
                PADDING,
                Seq::new(body, |i: int| 0u8),
            ));
        },
        None => {
            assert(hello.extensions =~= plain.extensions);
        },
    }
}

/// A dictated cipher suite list is final: it goes out as it is, behind GREASE if
/// GREASE is asked for, and nothing is put behind it.
pub proof fn the_cipher_suite_list_can_be_dictated(
    profile: ProfileModel,
    grease: Grease,
    offer: OfferModel,
)
    requires
        profile.cipher_suites is Some,
    ensures
        !profile.grease ==> shaped(profile, grease, offer).cipher_suites
            == profile.cipher_suites->0,
        profile.grease ==> shaped(profile, grease, offer).cipher_suites == seq![
            grease.cipher_suite,
        ] + profile.cipher_suites->0,
{
}

/// Nothing but the cipher suites, and with them the length to be padded, depends on
/// a dictated list.
pub proof fn a_dictated_list_touches_nothing_else(
    profile: ProfileModel,
    grease: Grease,
    offer: OfferModel,
    list: Option<Seq<u16>>,
)
    ensures
        ({
            let other = ProfileModel { cipher_suites: list, ..profile };
            let hello = shaped(profile, grease, offer);
            let changed = shaped(other, grease, offer);
            &&& changed.random == hello.random
            &&& changed.session_id == hello.session_id
            &&& leading(other, grease, offer) == leading(profile, grease, offer)
            &&& profile.padding is None ==> changed.extensions == hello.extensions
        }),
{
}

/// `typ` is not the type of any of these entries.
pub open spec fn lacks(list: Seq<(u16, Seq<u8>)>, typ: u16) -> bool {
    forall|i: int| 0 <= i < list.len() ==> (#[trigger] list[i]).0 != typ
}

proof fn lemma_find_behind(a: Seq<(u16, Seq<u8>)>, b: Seq<(u16, Seq<u8>)>, typ: u16)
    requires
        lacks(a, typ),
    ensures
        find_entry(a + b, typ) == find_entry(b, typ),
    decreases a.len(),
{
    if a.len() == 0 {
        assert(a + b =~= b);
    } else {
        assert((a + b)[0] == a[0]);
        assert((a + b).drop_first() =~= a.drop_first() + b);
        assert forall|i: int| 0 <= i < a.drop_first().len() implies (
        #[trigger] a.drop_first()[i]).0 != typ by {
            assert(a.drop_first()[i] == a[i + 1]);
        }
        lemma_find_behind(a.drop_first(), b, typ);
    }
}

/// A reader of the hello finds the groups, versions and key shares that the
/// profile shapes, unless a prepended extension takes one of their types.
pub proof fn shaped_lists_are_read_back(profile: ProfileModel, grease: Grease, offer: OfferModel)
    requires
        grease.well_formed(),
        shaped(profile, grease, offer).fits(),
        lacks(profile.prepend_extensions, SUPPORTED_GROUPS),
        lacks(profile.prepend_extensions, SUPPORTED_VERSIONS),
        lacks(profile.prepend_extensions, KEY_SHARE),
    ensures
        ({
            let list = shaped(profile, grease, offer).extensions;
            &&& find_entry(list, SUPPORTED_GROUPS) matches Some(body) && body.len() >= 2 && u16s(
                body.skip(2),
            ) == shaped_groups(profile, grease, offer)
            &&& find_entry(list, SUPPORTED_VERSIONS) matches Some(body) && body.len() >= 1 && u16s(
                body.skip(1),
            ) == shaped_versions(profile, grease, offer)
            &&& find_entry(list, KEY_SHARE) matches Some(body) && share_entries(body) == Some(
                shaped_shares(profile, grease, offer),
            )
        }),
{
    let list = shaped(profile, grease, offer).extensions;
    let groups = shaped_groups(profile, grease, offer);
    let versions = shaped_versions(profile, grease, offer);
    let shares = shaped_shares(profile, grease, offer);
    let g: int = if profile.grease {
        1
    } else {
        0
    };
    let start = g + profile.prepend_extensions.len();
    verbatim_extensions_go_where_they_were_put(profile, grease, offer);
    let made = generated(profile, grease, offer);
    let head = list.take(start);
    let tail = list.skip(start);
    assert(list =~= head + tail);
    assert(list.subrange(start, start + made.len())[0] == tail[0]);
    assert(list.subrange(start, start + made.len())[1] == tail[1]);
    assert(list.subrange(start, start + made.len())[2] == tail[2]);
    assert forall|i: int| 0 <= i < head.len() implies (#[trigger] head[i]).0 != SUPPORTED_GROUPS
        && head[i].0 != SUPPORTED_VERSIONS && head[i].0 != KEY_SHARE by {
        if i < g {
            grease_extensions_bracket_the_list(profile, grease, offer);
        } else {
            assert(list.subrange(g, g + profile.prepend_extensions.len())[i - g] == list[i]);
        }
    }
    lemma_find_behind(head, tail, SUPPORTED_GROUPS);
    lemma_find_behind(head, tail, SUPPORTED_VERSIONS);
    lemma_find_behind(head, tail, KEY_SHARE);
    assert(tail.drop_first()[0] == tail[1]);
    assert(tail.drop_first().drop_first()[0] == tail[2]);
    reveal_with_fuel(find_entry, 3);

    u16s_round_trip(groups);
    u16s_round_trip(versions);
    assert(groups_extension(groups).1.skip(2) =~= u16_bytes(groups));
    assert(versions_extension(versions).1.skip(1) =~= u16_bytes(versions));
    assert(shares_extension(shares).1.skip(2) =~= entries_bytes(shares));
    lemma_entry_within(list, start + 2);
    assert(list[start + 2] == tail[2]);
    assert forall|i: int| 0 <= i < shares.len() implies (#[trigger] shares[i]).1.len()
        <= 0xffff by {
        lemma_entry_within(shares, i);
    }
    entries_round_trip(shares);
}

/// Cipher suites on the wire: one reserved value if GREASE is asked for; then the dictated
/// list, or else every suite that was offered, in order, with the renegotiation signal
/// behind them where TLS 1.2 is offered. The random value and the session ID go out as
/// they were offered.
pub proof fn every_suite_goes_out_behind_grease(
    profile: ProfileModel,
    grease: Grease,
    offer: OfferModel,
)
    ensures
        ({
            let hello = shaped(profile, grease, offer);
            let front = if profile.grease {
                seq![grease.cipher_suite]
            } else {
                Seq::empty()
            };
            let signal = if offer.tls12 {
                seq![0x00ffu16]
            } else {
                Seq::empty()
            };
            &&& hello.random == offer.random
            &&& hello.session_id == offer.session_id
            &&& profile.cipher_suites matches Some(list) ==> hello.cipher_suites == front + list
            &&& profile.cipher_suites is None ==> hello.cipher_suites == front
                + offer.cipher_suites + signal
        }),
{
    let hello = shaped(profile, grease, offer);
    let front = if profile.grease {
        seq![grease.cipher_suite]
    } else {
        Seq::empty()
    };
    let signal = if offer.tls12 {
        seq![0x00ffu16]
    } else {
        Seq::empty()
    };
    match profile.cipher_suites {
        Some(list) => {
            assert(hello.cipher_suites =~= front + list);
        },
        None => {
            assert(hello.cipher_suites =~= front + offer.cipher_suites + signal);
        },
    }
}

/// GREASE takes nothing away: without its first value, the greased list of cipher suites is
/// the list that the same profile sends without GREASE.
pub proof fn grease_takes_no_suite_away(profile: ProfileModel, grease: Grease, offer: OfferModel)
    requires
        profile.grease,
    ensures
        ({
            let plain = ProfileModel { grease: false, ..profile };
            let greased = shaped(profile, grease, offer).cipher_suites;
            &&& greased.len() > 0 && greased[0] == grease.cipher_suite
            &&& greased.drop_first() == shaped(plain, grease, offer).cipher_suites
        }),
{
    let plain = ProfileModel { grease: false, ..profile };
    assert(shaped(profile, grease, offer).cipher_suites.drop_first() =~= shaped(
        plain,
        grease,
        offer,
    ).cipher_suites);
}

/// Every extension has its place. Without padding the list is, in this order: an empty
/// GREASE extension; what is prepended; supported groups, supported versions and key shares;
/// every other extension that was offered; what is appended; a GREASE extension with one
/// zero byte; and what is pinned to the end. The two of GREASE are there only if asked for.
pub proof fn every_extension_has_its_place(
    profile: ProfileModel,
    grease: Grease,
    offer: OfferModel,
)
    requires
        profile.padding is None,
    ensures
        ({
            let list = shaped(profile, grease, offer).extensions;
            let g: int = if profile.grease {
                1
            } else {
                0
            };
            let made = g + profile.prepend_extensions.len();
            let offered = made + 3;
            let appended = offered + offer.extensions.len();
            let last = appended + profile.append_extensions.len();
            let pinned = last + g;
            &&& list.len() == pinned + offer.trailing.len()
            &&& profile.grease ==> list[0].0 == grease.first_extension && list[0].1.len() == 0
            &&& list.subrange(g, made) == profile.prepend_extensions
            &&& list[made].0 == 10 && list[made + 1].0 == 43 && list[made + 2].0 == 51
            &&& list.subrange(offered, appended) == offer.extensions
            &&& list.subrange(appended, last) == profile.append_extensions
            &&& profile.grease ==> list[last].0 == grease.last_extension && list[last].1 == seq![
                0u8,
            ]
            &&& list.skip(pinned) == offer.trailing
        }),
{
    let list = shaped(profile, grease, offer).extensions;
    let front = leading(profile, grease, offer);
    let g: int = if profile.grease {
        1
    } else {
        0
    };
    let made = g + profile.prepend_extensions.len();
    let offered = made + 3;
    let appended = offered + offer.extensions.len();
    let last = appended + profile.append_extensions.len();
    assert(list =~= front + offer.trailing);
    assert(front.len() == last + g);
    assert(list.subrange(g, made) =~= profile.prepend_extensions);
    assert(list[made] == generated(profile, grease, offer)[0]);
    assert(list[made + 1] == generated(profile, grease, offer)[1]);
    assert(list[made + 2] == generated(profile, grease, offer)[2]);
    assert(list.subrange(offered, appended) =~= offer.extensions);
    assert(list.subrange(appended, last) =~= profile.append_extensions);
    assert(list.skip(last + g) =~= offer.trailing);
    assert(Grease::LAST_EXTENSION_PAYLOAD@ =~= seq![0u8]);
}

/// Padding adds one extension of zeros, directly in front of what is pinned to the end, and
/// changes nothing else; its size follows from the length of the hello without it.
pub proof fn padding_goes_in_front_of_what_is_pinned(
    profile: ProfileModel,
    rule: Padding,
    grease: Grease,
    offer: OfferModel,
)
    requires
        profile.padding == Some(rule),
    ensures
        ({
            let bare = shaped(ProfileModel { padding: None, ..profile }, grease, offer);
            let hello = shaped(profile, grease, offer);
            let cut = bare.extensions.len() - offer.trailing.len();
            let len = bare.body_len();
            let missing: int = if len + 4 <= rule.up_to {
                rule.up_to - len - 4
            } else {
                0
            };
            &&& hello.random == bare.random
            &&& hello.session_id == bare.session_id
            &&& hello.cipher_suites == bare.cipher_suites
            &&& rule.only_above <= len < rule.up_to ==> hello.extensions == bare.extensions.take(
                cut,
            ) + seq![(21u16, Seq::new(missing as nat, |i: int| 0u8))] + bare.extensions.skip(cut)
            &&& !(rule.only_above <= len < rule.up_to) ==> hello.extensions == bare.extensions
        }),
{
    let without = ProfileModel { padding: None, ..profile };
    let bare = shaped(without, grease, offer);
    let hello = shaped(profile, grease, offer);
    let front = leading(profile, grease, offer);
    let cut = bare.extensions.len() - offer.trailing.len();
    assert(leading(without, grease, offer) == front);
    assert(bare.extensions =~= front + offer.trailing);
    assert(unpadded(profile, grease, offer).extensions =~= bare.extensions);
    assert(bare.extensions.take(cut) =~= front);
    assert(bare.extensions.skip(cut) =~= offer.trailing);
    match padding_body(rule, bare.body_len()) {
        Some(body) => {
            assert(hello.extensions =~= front + seq![
                (21u16, Seq::new(body, |i: int| 0u8)),
            ] + offer.trailing);
        },
        None => {
            assert(hello.extensions =~= bare.extensions);
        },
    }
}

/// Inside the three extensions that hold lists, every value that was offered goes out, in
/// order, behind the length of the list and behind GREASE if that is asked for. The GREASE
/// key share is of the GREASE group and holds one zero byte.
#[verifier::rlimit(30)]
#[verifier::spinoff_prover]
pub proof fn every_offered_value_goes_out(
    profile: ProfileModel,
    grease: Grease,
    offer: OfferModel,
)
    requires
        profile.padding is None,
        2 * offer.named_groups.len() + 2 <= 0xffff,
        2 * offer.versions.len() + 2 <= 0xff,
        entries_bytes(offer.key_shares).len() + 5 <= 0xffff,
    ensures
        ({
            let list = shaped(profile, grease, offer).extensions;
            let g: int = if profile.grease {
                1
            } else {
                0
            };
            let made = g + profile.prepend_extensions.len();
            let groups = list[made].1;
            let versions = list[made + 1].1;
            let shares = list[made + 2].1;
            &&& groups.len() == 2 + 2 * (g + offer.named_groups.len())
            &&& 256 * groups[0] + groups[1] == groups.len() - 2
            &&& profile.grease ==> 256 * groups[2] + groups[3] == grease.named_group
            &&& forall|k: int|
                0 <= k < offer.named_groups.len() ==> 256 * groups[2 + 2 * (g + k)] + groups[3 + 2
                    * (g + k)] == #[trigger] offer.named_groups[k]
            &&& versions.len() == 1 + 2 * (g + offer.versions.len())
            &&& versions[0] == versions.len() - 1
            &&& profile.grease ==> 256 * versions[1] + versions[2] == grease.version
            &&& forall|k: int|
                0 <= k < offer.versions.len() ==> 256 * versions[1 + 2 * (g + k)] + versions[2 + 2
                    * (g + k)] == #[trigger] offer.versions[k]
            &&& shares.len() == 2 + 5 * g + entries_bytes(offer.key_shares).len()
            &&& 256 * shares[0] + shares[1] == shares.len() - 2
            &&& profile.grease ==> {
                &&& 256 * shares[2] + shares[3] == grease.named_group
                &&& shares[4] == 0 && shares[5] == 1 && shares[6] == 0
            }
            &&& shares.skip(2 + 5 * g) == entries_bytes(offer.key_shares)
        }),
{
    let list = shaped(profile, grease, offer).extensions;
    let g: int = if profile.grease {
        1
    } else {
        0
    };
    let made = g + profile.prepend_extensions.len();
    let front = leading(profile, grease, offer);
    let lists = generated(profile, grease, offer);
    assert(list =~= front + offer.trailing);
    assert(list[made] == lists[0] && list[made + 1] == lists[1] && list[made + 2] == lists[2]);
    let groups = shaped_groups(profile, grease, offer);
    let versions = shaped_versions(profile, grease, offer);
    let shares = shaped_shares(profile, grease, offer);

    let body = groups_extension(groups).1;
    assert(body =~= list[made].1);
    assert forall|k: int| 0 <= k < groups.len() implies 256 * body[2 + 2 * k] + body[3 + 2 * k]
        == #[trigger] groups[k] by {
        numbers_are_written_in_order(groups, k);
        assert(body[2 + 2 * k] == u16_bytes(groups)[2 * k]);
        assert(body[3 + 2 * k] == u16_bytes(groups)[2 * k + 1]);
    }
    assert forall|k: int| 0 <= k < offer.named_groups.len() implies 256 * body[2 + 2 * (g + k)]
        + body[3 + 2 * (g + k)] == #[trigger] offer.named_groups[k] by {
        assert(groups[g + k] == offer.named_groups[k]);
    }
    assert(profile.grease ==> groups[0] == grease.named_group);

    let body = versions_extension(versions).1;
    assert(body =~= list[made + 1].1);
    assert forall|k: int| 0 <= k < versions.len() implies 256 * body[1 + 2 * k] + body[2 + 2 * k]
        == #[trigger] versions[k] by {
        numbers_are_written_in_order(versions, k);
        assert(body[1 + 2 * k] == u16_bytes(versions)[2 * k]);
        assert(body[2 + 2 * k] == u16_bytes(versions)[2 * k + 1]);
    }
    assert forall|k: int| 0 <= k < offer.versions.len() implies 256 * body[1 + 2 * (g + k)]
        + body[2 + 2 * (g + k)] == #[trigger] offer.versions[k] by {
        assert(versions[g + k] == offer.versions[k]);
    }
    assert(profile.grease ==> versions[0] == grease.version);

    let body = shares_extension(shares).1;
    assert(body =~= list[made + 2].1);
    let bytes = entries_bytes(shares);
    if profile.grease {
        let entry = (grease.named_group, Grease::KEY_SHARE_PAYLOAD@);
        let none = Seq::<(u16, Seq<u8>)>::empty();
        assert(shares =~= none + seq![entry] + offer.key_shares);
        entries_are_written_in_order(none, entry, offer.key_shares);
        assert(bytes.subrange(4, 5)[0] == bytes[4]);
        assert(bytes.skip(5) =~= entries_bytes(offer.key_shares));
        assert(body.skip(7) =~= bytes.skip(5));
        assert(body[2] == bytes[0] && body[3] == bytes[1] && body[4] == bytes[2]);
        assert(body[5] == bytes[3] && body[6] == bytes[4]);
    } else {
        assert(body.skip(2) =~= bytes);
    }
}

} // verus!
