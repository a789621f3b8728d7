//! What holds of every attribute and of every rewritten declaration.

use vstd::prelude::*;
use crate::attribute::{
    first_error, first_feature_error, parsed_attributes, parsed_features, scanned, tag_of,
    with_feature, Scan,
};
use crate::config::{Printer, Settings, TimeUnit};
use crate::error::ConfigError;
use crate::function::Declaration;
use crate::synth::{
    any_feature, body, cfg_attribute, header, negated, reassembled, synthesized,
    timed_statements,
};
use crate::text::{quoted, without_quotes, without_quotes_of_quoted};
use crate::token::{Delimiter, Token};

verus! {

/// The tokens at the even places of a list: its items, without the commas between them.
pub open spec fn values(tokens: Seq<Token>) -> Seq<Token> {
    Seq::new(((tokens.len() + 1) / 2) as nat, |k: int| tokens[2 * k])
}

/// Does a comma stand at every odd place?
pub open spec fn comma_separated(tokens: Seq<Token>) -> bool {
    forall|i: int| 0 <= i < tokens.len() && i % 2 == 1 ==> (#[trigger] tokens[i]).is_comma()
}

/// The three things that an attribute can set.
pub enum Slot {
    Printer,
    TimeUnit,
    Features,
}

/// What a token sets when it stands alone, or why it cannot stand.
pub open spec fn alone(token: Token) -> Result<Scan, ConfigError> {
    Scan::start().with_value(token)
}

/// Which of the three a token sets; `None` for a token that no attribute accepts.
pub open spec fn slot_of(token: Token) -> Option<Slot> {
    match alone(token) {
        Ok(scan) => if scan.printer is Some {
            Some(Slot::Printer)
        } else if scan.time_unit is Some {
            Some(Slot::TimeUnit)
        } else {
            Some(Slot::Features)
        },
        Err(_) => None,
    }
}

/// Is what `token` sets set that way in `scan`?
pub open spec fn agrees(scan: Scan, token: Token) -> bool {
    match alone(token) {
        Ok(single) => match slot_of(token) {
            Some(Slot::Printer) => scan.printer == single.printer,
            Some(Slot::TimeUnit) => scan.time_unit == single.time_unit,
            _ => scan.features == single.features,
        },
        Err(_) => false,
    }
}

/// The rule that a list of arguments has to meet: commas between the items, every item a
/// known setting, and no two items for the same setting.
pub open spec fn acceptable(tokens: Seq<Token>) -> bool {
    let items = values(tokens);
    &&& comma_separated(tokens)
    &&& forall|i: int| 0 <= i < items.len() ==> slot_of(#[trigger] items[i]) is Some
    &&& forall|i: int, j: int|
        0 <= i < j < items.len() ==> slot_of(#[trigger] items[i]) != slot_of(#[trigger] items[j])
}

/// What the last token of a list adds: at an odd place a comma to check, at an even place
/// one more item.
proof fn one_more_token(tokens: Seq<Token>)
    requires
        tokens.len() > 0,
    ensures
        (tokens.len() - 1) % 2 == 1 ==> {
            &&& values(tokens) == values(tokens.drop_last())
            &&& comma_separated(tokens) <==> comma_separated(tokens.drop_last())
                && tokens.last().is_comma()
        },
        (tokens.len() - 1) % 2 == 0 ==> {
            &&& values(tokens) == values(tokens.drop_last()).push(tokens.last())
            &&& comma_separated(tokens) <==> comma_separated(tokens.drop_last())
        },
{
    let front = tokens.drop_last();
    let last = tokens.len() - 1;
    if comma_separated(tokens) {
        assert forall|i: int| 0 <= i < front.len() && i % 2 == 1 implies (#[trigger] front[i])
            .is_comma() by {
            assert(front[i] == tokens[i]);
        }
        assert(tokens[last] == tokens.last());
    }
    if comma_separated(front) && (last % 2 == 1 ==> tokens.last().is_comma()) {
        assert forall|i: int| 0 <= i < tokens.len() && i % 2 == 1 implies (#[trigger] tokens[i])
            .is_comma() by {
            if i < last {
                assert(front[i] == tokens[i]);
            }
        }
    }
    if last % 2 == 1 {
        assert(values(tokens) == values(front));
    } else {
        assert(values(tokens) == values(front).push(tokens.last()));
    }
}

/// The items taken in one after the other, commas left aside.
spec fn folded(items: Seq<Token>) -> Result<Scan, ConfigError>
    decreases items.len(),
{
    if items.len() == 0 {
        Ok(Scan::start())
    } else {
        match folded(items.drop_last()) {
            Err(error) => Err(error),
            Ok(scan) => scan.with_value(items.last()),
        }
    }
}

/// A list with its commas in place is read as its items are; any other list is refused.
proof fn scanned_is_folded(tokens: Seq<Token>)
    ensures
        comma_separated(tokens) ==> scanned(tokens) == folded(values(tokens)),
        !comma_separated(tokens) ==> scanned(tokens) is Err,
    decreases tokens.len(),
{
    if tokens.len() > 0 {
        one_more_token(tokens);
        scanned_is_folded(tokens.drop_last());
        if (tokens.len() - 1) % 2 == 0 {
            assert(values(tokens).drop_last() == values(tokens.drop_last()));
            assert(values(tokens).last() == tokens.last());
        }
    }
}

/// The items are accepted exactly when each is a known setting and no two set the same
/// thing; what each sets is then set in the outcome, and nothing else is.
proof fn folded_holds_each_item(items: Seq<Token>)
    ensures
        folded(items) is Ok <==> {
            &&& forall|i: int| 0 <= i < items.len() ==> slot_of(#[trigger] items[i]) is Some
            &&& forall|i: int, j: int|
                0 <= i < j < items.len() ==> slot_of(#[trigger] items[i]) != slot_of(
                    #[trigger] items[j],
                )
        },
        folded(items) matches Ok(scan) ==> {
            &&& forall|i: int| 0 <= i < items.len() ==> agrees(scan, #[trigger] items[i])
            &&& scan.printer is Some ==> exists|i: int|
                0 <= i < items.len() && slot_of(#[trigger] items[i]) == Some(Slot::Printer)
            &&& scan.time_unit is Some ==> exists|i: int|
                0 <= i < items.len() && slot_of(#[trigger] items[i]) == Some(Slot::TimeUnit)
            &&& scan.features is Some ==> exists|i: int|
                0 <= i < items.len() && slot_of(#[trigger] items[i]) == Some(Slot::Features)
        },
    decreases items.len(),
{
    if items.len() > 0 {
        let front = items.drop_last();
        let last = items.len() - 1;
        folded_holds_each_item(front);
        assert forall|i: int| 0 <= i < front.len() implies #[trigger] front[i] == items[i] by {}
        match folded(front) {
            Err(_) => {
                if forall|i: int| 0 <= i < items.len() ==> slot_of(#[trigger] items[i]) is Some {
                    assert forall|i: int| 0 <= i < front.len() implies slot_of(
                        #[trigger] front[i],
                    ) is Some by {
                        assert(front[i] == items[i]);
                    }
                    let (i, j) = choose|i: int, j: int|
                        0 <= i < j < front.len() && slot_of(#[trigger] front[i]) == slot_of(
                            #[trigger] front[j],
                        );
                    assert(items[i] == front[i] && items[j] == front[j]);
                }
            },
            Ok(scan) => {
                let token = items[last];
                if scan.with_value(token) is Ok {
                    let after = scan.with_value(token)->Ok_0;
                    assert forall|i: int| 0 <= i < items.len() implies slot_of(
                        #[trigger] items[i],
                    ) is Some by {
                        if i < last {
                            assert(front[i] == items[i]);
                        }
                    }
                    assert forall|i: int, j: int| 0 <= i < j < items.len() implies slot_of(
                        #[trigger] items[i],
                    ) != slot_of(#[trigger] items[j]) by {
                        assert(front[i] == items[i]);
                        if j < last {
                            assert(front[j] == items[j]);
                        } else {
                            assert(agrees(scan, front[i]));
                        }
                    }
                    assert forall|i: int| 0 <= i < items.len() implies agrees(
                        after,
                        #[trigger] items[i],
                    ) by {
                        if i < last {
                            assert(front[i] == items[i]);
                            assert(agrees(scan, front[i]));
                        }
                    }
                    if after.printer is Some {
                        if scan.printer is Some {
                            let i = choose|i: int|
                                0 <= i < front.len() && slot_of(#[trigger] front[i]) == Some(
                                    Slot::Printer,
                                );
                            assert(items[i] == front[i]);
                        } else {
                            assert(slot_of(items[last]) == Some(Slot::Printer));
                        }
                    }
                    if after.time_unit is Some {
                        if scan.time_unit is Some {
                            let i = choose|i: int|
                                0 <= i < front.len() && slot_of(#[trigger] front[i]) == Some(
                                    Slot::TimeUnit,
                                );
                            assert(items[i] == front[i]);
                        } else {
                            assert(slot_of(items[last]) == Some(Slot::TimeUnit));
                        }
                    }
                    if after.features is Some {
                        if scan.features is Some {
                            let i = choose|i: int|
                                0 <= i < front.len() && slot_of(#[trigger] front[i]) == Some(
                                    Slot::Features,
                                );
                            assert(items[i] == front[i]);
                        } else {
                            assert(slot_of(items[last]) == Some(Slot::Features));
                        }
                    }
                } else {
                    if slot_of(token) is Some {
                        let taken = if slot_of(token) == Some(Slot::Printer) {
                            choose|i: int|
                                0 <= i < front.len() && slot_of(#[trigger] front[i]) == Some(
                                    Slot::Printer,
                                )
                        } else if slot_of(token) == Some(Slot::TimeUnit) {
                            choose|i: int|
                                0 <= i < front.len() && slot_of(#[trigger] front[i]) == Some(
                                    Slot::TimeUnit,
                                )
                        } else {
                            choose|i: int|
                                0 <= i < front.len() && slot_of(#[trigger] front[i]) == Some(
                                    Slot::Features,
                                )
                        };
                        assert(items[taken] == front[taken]);
                        assert(slot_of(items[taken]) == slot_of(items[last]));
                    }
                }
            },
        }
    }
}

/// An attribute is accepted exactly when commas stand between its items, every item is a
/// known setting, and no two items set the same thing.
pub proof fn accepted_when_acceptable(tokens: Seq<Token>)
    ensures
        parsed_attributes(tokens) is Ok <==> acceptable(tokens),
{
    scanned_is_folded(tokens);
    folded_holds_each_item(values(tokens));
}

/// What an accepted attribute asks for is what its items set, and the default for what no
/// item sets: standard output, the duration's own rendering, no feature.
pub proof fn settings_are_what_the_items_set(tokens: Seq<Token>)
    requires
        parsed_attributes(tokens) is Ok,
    ensures
        ({
            let settings = parsed_attributes(tokens)->Ok_0;
            let items = values(tokens);
            &&& forall|i: int|
                0 <= i < items.len() ==> match slot_of(#[trigger] items[i]) {
                    Some(Slot::Printer) => Some(settings.printer) == alone(items[i])->Ok_0.printer,
                    Some(Slot::TimeUnit) => Some(settings.time_unit) == alone(
                        items[i],
                    )->Ok_0.time_unit,
                    Some(Slot::Features) => Some(settings.features) == alone(
                        items[i],
                    )->Ok_0.features,
                    None => false,
                }
            &&& (forall|i: int|
                0 <= i < items.len() ==> slot_of(#[trigger] items[i]) != Some(Slot::Printer))
                ==> settings.printer == Printer::StdOut
            &&& (forall|i: int|
                0 <= i < items.len() ==> slot_of(#[trigger] items[i]) != Some(Slot::TimeUnit))
                ==> settings.time_unit == TimeUnit::Auto
            &&& (forall|i: int|
                0 <= i < items.len() ==> slot_of(#[trigger] items[i]) != Some(Slot::Features))
                ==> settings.features == Seq::<Seq<char>>::empty()
        }),
{
    let items = values(tokens);
    let scan = scanned(tokens)->Ok_0;
    scanned_is_folded(tokens);
    folded_holds_each_item(items);
    assert forall|i: int| 0 <= i < items.len() implies match slot_of(#[trigger] items[i]) {
        Some(Slot::Printer) => Some(scan.settings().printer) == alone(items[i])->Ok_0.printer,
        Some(Slot::TimeUnit) => Some(scan.settings().time_unit) == alone(
            items[i],
        )->Ok_0.time_unit,
        Some(Slot::Features) => Some(scan.settings().features) == alone(items[i])->Ok_0.features,
        None => false,
    } by {
        assert(agrees(scan, items[i]));
    }
}

/// Order does not matter: two lists with commas in place that hold the same items, each as
/// often as in the other, are read into the same settings. Where one is accepted, so is the
/// other.
pub proof fn order_does_not_matter(left: Seq<Token>, right: Seq<Token>)
    requires
        parsed_attributes(left) is Ok,
        comma_separated(right),
        values(left).to_multiset() == values(right).to_multiset(),
    ensures
        parsed_attributes(right) == parsed_attributes(left),
{
    let a = values(left);
    let b = values(right);
    scanned_is_folded(left);
    scanned_is_folded(right);
    folded_holds_each_item(a);
    a.to_multiset_ensures();
    b.to_multiset_ensures();
    assert(a.no_duplicates());
    a.lemma_multiset_has_no_duplicates();
    b.lemma_multiset_has_no_duplicates_conv();
    assert forall|i: int| 0 <= i < b.len() implies a.contains(#[trigger] b[i]) by {
        assert(b.contains(b[i]));
        assert(b.to_multiset().count(b[i]) > 0);
    }
    assert forall|i: int| 0 <= i < a.len() implies b.contains(#[trigger] a[i]) by {
        assert(a.contains(a[i]));
        assert(a.to_multiset().count(a[i]) > 0);
    }
    assert forall|i: int| 0 <= i < b.len() implies slot_of(#[trigger] b[i]) is Some by {
        let k = choose|k: int| 0 <= k < a.len() && a[k] == b[i];
        assert(slot_of(a[k]) is Some);
    }
    assert forall|i: int, j: int| 0 <= i < j < b.len() implies slot_of(#[trigger] b[i])
        != slot_of(#[trigger] b[j]) by {
        let k = choose|k: int| 0 <= k < a.len() && a[k] == b[i];
        let l = choose|l: int| 0 <= l < a.len() && a[l] == b[j];
        assert(b[i] != b[j]);
        if k < l {
            assert(slot_of(a[k]) != slot_of(a[l]));
        } else {
            assert(slot_of(a[l]) != slot_of(a[k]));
        }
    }
    folded_holds_each_item(b);
    let old_scan = folded(a)->Ok_0;
    let new_scan = folded(b)->Ok_0;
    assert(new_scan.printer == old_scan.printer) by {
        if new_scan.printer is Some {
            let i = choose|i: int|
                0 <= i < b.len() && slot_of(#[trigger] b[i]) == Some(Slot::Printer);
            let k = choose|k: int| 0 <= k < a.len() && a[k] == b[i];
            assert(agrees(new_scan, b[i]) && agrees(old_scan, a[k]));
        } else if old_scan.printer is Some {
            let i = choose|i: int|
                0 <= i < a.len() && slot_of(#[trigger] a[i]) == Some(Slot::Printer);
            let k = choose|k: int| 0 <= k < b.len() && b[k] == a[i];
            assert(agrees(new_scan, b[k]) && agrees(old_scan, a[i]));
        }
    }
    assert(new_scan.time_unit == old_scan.time_unit) by {
        if new_scan.time_unit is Some {
            let i = choose|i: int|
                0 <= i < b.len() && slot_of(#[trigger] b[i]) == Some(Slot::TimeUnit);
            let k = choose|k: int| 0 <= k < a.len() && a[k] == b[i];
            assert(agrees(new_scan, b[i]) && agrees(old_scan, a[k]));
        } else if old_scan.time_unit is Some {
            let i = choose|i: int|
                0 <= i < a.len() && slot_of(#[trigger] a[i]) == Some(Slot::TimeUnit);
            let k = choose|k: int| 0 <= k < b.len() && b[k] == a[i];
            assert(agrees(new_scan, b[k]) && agrees(old_scan, a[i]));
        }
    }
    assert(new_scan.features == old_scan.features) by {
        if new_scan.features is Some {
            let i = choose|i: int|
                0 <= i < b.len() && slot_of(#[trigger] b[i]) == Some(Slot::Features);
            let k = choose|k: int| 0 <= k < a.len() && a[k] == b[i];
            assert(agrees(new_scan, b[i]) && agrees(old_scan, a[k]));
        } else if old_scan.features is Some {
            let i = choose|i: int|
                0 <= i < a.len() && slot_of(#[trigger] a[i]) == Some(Slot::Features);
            let k = choose|k: int| 0 <= k < b.len() && b[k] == a[i];
            assert(agrees(new_scan, b[k]) && agrees(old_scan, a[i]));
        }
    }
}

/// The names of a group taken in one after the other, commas left aside.
spec fn gathered(items: Seq<Token>) -> Result<Seq<Seq<char>>, ConfigError>
    decreases items.len(),
{
    if items.len() == 0 {
        Ok(Seq::empty())
    } else {
        match gathered(items.drop_last()) {
            Err(error) => Err(error),
            Ok(names) => match tag_of(items.last()) {
                Some(name) => Ok(with_feature(names, name)),
                None => Err(ConfigError::UnknownFeature),
            },
        }
    }
}

/// A group with its commas in place is read as its items are; any other group is refused.
proof fn features_are_gathered(tokens: Seq<Token>)
    ensures
        comma_separated(tokens) ==> parsed_features(tokens) == gathered(values(tokens)),
        !comma_separated(tokens) ==> parsed_features(tokens) is Err,
    decreases tokens.len(),
{
    if tokens.len() > 0 {
        one_more_token(tokens);
        features_are_gathered(tokens.drop_last());
        if (tokens.len() - 1) % 2 == 0 {
            assert(values(tokens).drop_last() == values(tokens.drop_last()));
            assert(values(tokens).last() == tokens.last());
        }
    }
}

/// The items are accepted exactly when each spells a name; the names kept are then those
/// that the items spell, each once.
proof fn gathered_holds_each_name(items: Seq<Token>)
    ensures
        gathered(items) is Ok <==> forall|i: int|
            0 <= i < items.len() ==> tag_of(#[trigger] items[i]) is Some,
        gathered(items) matches Ok(names) ==> {
            &&& names.no_duplicates()
            &&& forall|name: Seq<char>| #[trigger]
                names.contains(name) <==> exists|i: int|
                    0 <= i < items.len() && tag_of(#[trigger] items[i]) == Some(name)
        },
    decreases items.len(),
{
    if items.len() > 0 {
        let front = items.drop_last();
        let last = items.len() - 1;
        gathered_holds_each_name(front);
        assert forall|i: int| 0 <= i < front.len() implies #[trigger] front[i] == items[i] by {}
        match gathered(front) {
            Err(_) => {
                if forall|i: int| 0 <= i < items.len() ==> tag_of(#[trigger] items[i]) is Some {
                    assert forall|i: int| 0 <= i < front.len() implies tag_of(
                        #[trigger] front[i],
                    ) is Some by {
                        assert(front[i] == items[i]);
                    }
                }
            },
            Ok(names) => {
                match tag_of(items[last]) {
                    None => {},
                    Some(added) => {
                        let kept = with_feature(names, added);
                        assert forall|i: int| 0 <= i < items.len() implies tag_of(
                            #[trigger] items[i],
                        ) is Some by {
                            if i < last {
                                assert(front[i] == items[i]);
                            }
                        }
                        assert forall|name: Seq<char>| #[trigger]
                            kept.contains(name) implies exists|i: int|
                            0 <= i < items.len() && tag_of(#[trigger] items[i]) == Some(name) by {
                            if names.contains(name) {
                                let i = choose|i: int|
                                    0 <= i < front.len() && tag_of(#[trigger] front[i]) == Some(
                                        name,
                                    );
                                assert(items[i] == front[i]);
                            } else {
                                let k = choose|k: int| 0 <= k < kept.len() && kept[k] == name;
                                assert(name == added);
                                assert(tag_of(items[last]) == Some(name));
                            }
                        }
                        assert forall|name: Seq<char>|
                            (exists|i: int|
                                0 <= i < items.len() && tag_of(#[trigger] items[i]) == Some(
                                    name,
                                )) implies #[trigger] kept.contains(name) by {
                            let i = choose|i: int|
                                0 <= i < items.len() && tag_of(#[trigger] items[i]) == Some(name);
                            if i < last {
                                assert(front[i] == items[i]);
                                assert(names.contains(name));
                                let k = choose|k: int| 0 <= k < names.len() && names[k] == name;
                                assert(kept[k] == name);
                            } else {
                                if names.contains(name) {
                                    let k = choose|k: int|
                                        0 <= k < names.len() && names[k] == name;
                                    assert(kept[k] == name);
                                } else {
                                    assert(kept[names.len() as int] == name);
                                }
                            }
                        }
                    },
                }
            },
        }
    }
}

/// A group of features is accepted exactly when commas stand between its items and every
/// item is a word or a literal.
pub proof fn features_accepted_when_names(tokens: Seq<Token>)
    ensures
        parsed_features(tokens) is Ok <==> {
            &&& comma_separated(tokens)
            &&& forall|i: int|
                0 <= i < values(tokens).len() ==> tag_of(#[trigger] values(tokens)[i]) is Some
        },
{
    features_are_gathered(tokens);
    gathered_holds_each_name(values(tokens));
}

/// A feature that is named several times is kept once: the list read from a group holds no
/// name twice, and holds exactly the names that the items of the group spell.
pub proof fn features_are_kept_once(tokens: Seq<Token>)
    requires
        parsed_features(tokens) is Ok,
    ensures
        parsed_features(tokens)->Ok_0.no_duplicates(),
        forall|name: Seq<char>| #[trigger]
            parsed_features(tokens)->Ok_0.contains(name) <==> exists|i: int|
                0 <= i < values(tokens).len() && tag_of(#[trigger] values(tokens)[i]) == Some(
                    name,
                ),
{
    features_are_gathered(tokens);
    gathered_holds_each_name(values(tokens));
}

/// The settings of an accepted attribute list no feature twice.
pub proof fn settings_list_each_feature_once(tokens: Seq<Token>)
    requires
        parsed_attributes(tokens) is Ok,
    ensures
        parsed_attributes(tokens)->Ok_0.features.no_duplicates(),
    decreases tokens.len(),
{
    if tokens.len() > 0 {
        let front = tokens.drop_last();
        settings_list_each_feature_once(front);
        if let Token::Group(_, inner) = tokens.last() {
            if (tokens.len() - 1) % 2 == 0 {
                features_are_kept_once(inner);
            }
        }
    }
}

/// Order does not matter among features either: two groups with commas in place whose items
/// are the same, whatever their order and however often each is repeated, give the same set
/// of features.
pub proof fn feature_order_does_not_matter(left: Seq<Token>, right: Seq<Token>)
    requires
        parsed_features(left) is Ok,
        comma_separated(right),
        values(left).to_set() == values(right).to_set(),
    ensures
        parsed_features(right) is Ok,
        parsed_features(right)->Ok_0.to_set() == parsed_features(left)->Ok_0.to_set(),
{
    let a = values(left);
    let b = values(right);
    features_are_gathered(left);
    features_are_gathered(right);
    gathered_holds_each_name(a);
    assert forall|i: int| 0 <= i < b.len() implies a.contains(#[trigger] b[i]) by {
        assert(b.contains(b[i]));
        assert(b.to_set().contains(b[i]));
        assert(a.to_set().contains(b[i]));
    }
    assert forall|i: int| 0 <= i < a.len() implies b.contains(#[trigger] a[i]) by {
        assert(a.contains(a[i]));
        assert(a.to_set().contains(a[i]));
        assert(b.to_set().contains(a[i]));
    }
    assert forall|i: int| 0 <= i < b.len() implies tag_of(#[trigger] b[i]) is Some by {
        let k = choose|k: int| 0 <= k < a.len() && a[k] == b[i];
        assert(tag_of(a[k]) is Some);
    }
    gathered_holds_each_name(b);
    let old_names = gathered(a)->Ok_0;
    let new_names = gathered(b)->Ok_0;
    assert forall|name: Seq<char>| old_names.contains(name) implies new_names.contains(name) by {
        let i = choose|i: int| 0 <= i < a.len() && tag_of(#[trigger] a[i]) == Some(name);
        let k = choose|k: int| 0 <= k < b.len() && b[k] == a[i];
        assert(tag_of(b[k]) == Some(name));
    }
    assert forall|name: Seq<char>| new_names.contains(name) implies old_names.contains(name) by {
        let i = choose|i: int| 0 <= i < b.len() && tag_of(#[trigger] b[i]) == Some(name);
        let k = choose|k: int| 0 <= k < a.len() && a[k] == b[i];
        assert(tag_of(a[k]) == Some(name));
    }
    assert(new_names.to_set() =~= old_names.to_set());
}

/// A literal read as the word that it spells; any other token as it is.
pub open spec fn bare(token: Token) -> Token {
    match token {
        Token::Literal(text) => Token::Ident(without_quotes(text)),
        _ => token,
    }
}

/// A token with every literal, its own or those of its group, replaced by the word that the
/// literal spells.
pub open spec fn unquoted(token: Token) -> Token {
    match token {
        Token::Group(delimiter, inner) => Token::Group(delimiter, inner.map_values(|t: Token| bare(t))),
        _ => bare(token),
    }
}

/// A list with every token unquoted.
pub open spec fn all_unquoted(tokens: Seq<Token>) -> Seq<Token> {
    tokens.map_values(|t: Token| unquoted(t))
}

/// A group reads the same with its literals replaced by words.
proof fn features_of_bare(tokens: Seq<Token>)
    ensures
        parsed_features(tokens.map_values(|t: Token| bare(t))) == parsed_features(tokens),
    decreases tokens.len(),
{
    let plain = tokens.map_values(|t: Token| bare(t));
    if tokens.len() > 0 {
        features_of_bare(tokens.drop_last());
        assert(plain.drop_last() == tokens.drop_last().map_values(|t: Token| bare(t)));
        assert(plain.last() == bare(tokens.last()));
    }
}

/// A list reads the same with its literals replaced by words.
proof fn scanned_of_unquoted(tokens: Seq<Token>)
    ensures
        scanned(all_unquoted(tokens)) == scanned(tokens),
    decreases tokens.len(),
{
    let plain = all_unquoted(tokens);
    if tokens.len() > 0 {
        scanned_of_unquoted(tokens.drop_last());
        assert(plain.drop_last() == all_unquoted(tokens.drop_last()));
        assert(plain.last() == unquoted(tokens.last()));
        if let Token::Group(_, inner) = tokens.last() {
            features_of_bare(inner);
        }
    }
}

/// Quotes do not matter: two lists that differ only in that one spells a word or a feature
/// as a literal where the other writes it bare are read alike, down to the error.
pub proof fn quotes_do_not_matter(left: Seq<Token>, right: Seq<Token>)
    requires
        all_unquoted(left) == all_unquoted(right),
    ensures
        parsed_attributes(left) == parsed_attributes(right),
{
    scanned_of_unquoted(left);
    scanned_of_unquoted(right);
}

/// A word between double quotes is, unquoted, the word itself.
pub proof fn quoted_word_is_the_word(word: Seq<char>)
    requires
        !word.contains('"'),
    ensures
        unquoted(Token::Literal(quoted(word))) == unquoted(Token::Ident(word)),
        bare(Token::Literal(quoted(word))) == bare(Token::Ident(word)),
{
    let literal = Token::Literal(quoted(word));
    assert(without_quotes(quoted(word)) == word) by {
        without_quotes_of_quoted(word);
    }
    assert(bare(literal) == Token::Ident(word));
    assert(unquoted(literal) == bare(literal));
}

/// An attribute without arguments asks for standard output, the duration's own rendering
/// and no feature.
pub proof fn empty_attribute_gives_defaults()
    ensures
        parsed_attributes(Seq::empty()) == Ok::<Settings, ConfigError>(
            Settings {
                printer: Printer::StdOut,
                time_unit: TimeUnit::Auto,
                features: Seq::empty(),
            },
        ),
{
}

/// The error for a second item that sets what is set already.
pub open spec fn repeated(slot: Slot) -> ConfigError {
    match slot {
        Slot::Printer => ConfigError::DuplicatePrinter,
        Slot::TimeUnit => ConfigError::DuplicateTimeUnit,
        Slot::Features => ConfigError::DuplicateFeatures,
    }
}

/// No setting twice: a list in which two items set the same thing is refused. Where the
/// list is fine up to the second of them, the error is the one of that setting.
pub proof fn repeated_setting_is_rejected(tokens: Seq<Token>, first: int, second: int)
    requires
        0 <= first < second < tokens.len(),
        first % 2 == 0,
        second % 2 == 0,
        slot_of(tokens[first]) is Some,
        slot_of(tokens[first]) == slot_of(tokens[second]),
    ensures
        parsed_attributes(tokens) is Err,
        scanned(tokens.take(second)) is Ok ==> parsed_attributes(tokens) == Err::<
            Settings,
            ConfigError,
        >(repeated(slot_of(tokens[second])->Some_0)),
{
    let items = values(tokens);
    assert(items[first / 2] == tokens[first] && items[second / 2] == tokens[second]);
    accepted_when_acceptable(tokens);
    if scanned(tokens.take(second)) is Ok {
        let front = tokens.take(second);
        let scan = scanned(front)->Ok_0;
        scanned_is_folded(front);
        folded_holds_each_item(values(front));
        assert(values(front)[first / 2] == tokens[first]);
        assert(agrees(scan, values(front)[first / 2]));
        assert(tokens.take(second + 1).drop_last() == front);
        assert(scanned(tokens.take(second + 1)) == scan.with_token(second, tokens[second]));
        first_error(tokens, second + 1);
    }
}

/// Commas are required: a list in which something else stands at an odd place is refused.
/// Where the list is fine up to that place, the error is the missing delimiter.
pub proof fn missing_comma_is_rejected(tokens: Seq<Token>, place: int)
    requires
        0 <= place < tokens.len(),
        place % 2 == 1,
        !tokens[place].is_comma(),
    ensures
        parsed_attributes(tokens) is Err,
        scanned(tokens.take(place)) is Ok ==> parsed_attributes(tokens) == Err::<
            Settings,
            ConfigError,
        >(ConfigError::AttributeDelimiter),
{
    accepted_when_acceptable(tokens);
    if scanned(tokens.take(place)) is Ok {
        assert(tokens.take(place + 1).drop_last() == tokens.take(place));
        first_error(tokens, place + 1);
    }
}

/// Two tokens side by side of which neither is a comma: the list is refused.
pub proof fn adjacent_items_are_rejected(tokens: Seq<Token>, place: int)
    requires
        0 <= place,
        place + 1 < tokens.len(),
        !tokens[place].is_comma(),
        !tokens[place + 1].is_comma(),
    ensures
        parsed_attributes(tokens) is Err,
{
    if place % 2 == 1 {
        missing_comma_is_rejected(tokens, place);
    } else {
        missing_comma_is_rejected(tokens, place + 1);
    }
}

/// The same inside a group of features: something other than a comma at an odd place makes
/// the group refused, with the missing delimiter as the error where the group is fine up to
/// that place.
pub proof fn missing_feature_comma_is_rejected(tokens: Seq<Token>, place: int)
    requires
        0 <= place < tokens.len(),
        place % 2 == 1,
        !tokens[place].is_comma(),
    ensures
        parsed_features(tokens) is Err,
        parsed_features(tokens.take(place)) is Ok ==> parsed_features(tokens) == Err::<
            Seq<Seq<char>>,
            ConfigError,
        >(ConfigError::FeatureDelimiter),
{
    features_accepted_when_names(tokens);
    if parsed_features(tokens.take(place)) is Ok {
        assert(tokens.take(place + 1).drop_last() == tokens.take(place));
        first_feature_error(tokens, place + 1);
    }
}

/// `Both` prints twice: the statement for standard output, then the one for standard error,
/// and the two differ in nothing but the macro that prints.
pub proof fn both_prints_to_stdout_then_stderr(time_unit: TimeUnit, function_name: Seq<char>)
    ensures
        Printer::Both.print_tokens(time_unit, function_name) == Printer::StdOut.print_tokens(
            time_unit,
            function_name,
        ) + Printer::StdErr.print_tokens(time_unit, function_name),
        Printer::StdOut.print_tokens(time_unit, function_name).len() == 4,
        Printer::StdErr.print_tokens(time_unit, function_name).len() == 4,
        Printer::StdOut.print_tokens(time_unit, function_name)[0] == Token::Ident("println"@),
        Printer::StdErr.print_tokens(time_unit, function_name)[0] == Token::Ident("eprintln"@),
        Printer::StdErr.print_tokens(time_unit, function_name).skip(1)
            == Printer::StdOut.print_tokens(time_unit, function_name).skip(1),
{
}

/// Only the body changes: the rewritten declaration is the header of the old one, token for
/// token, followed by one group in braces, whatever the settings.
pub proof fn only_the_body_changes(settings: Settings, declaration: Declaration)
    ensures
        synthesized(settings, declaration).drop_last() == header(declaration.fragment),
        reassembled(declaration.fragment).take(header(declaration.fragment).len() as int)
            == header(declaration.fragment),
        synthesized(settings, declaration).last() == Token::Group(
            Delimiter::Brace,
            body(settings, declaration.name, declaration.fragment.block),
        ),
{
}

/// Without features the new body is the timed statements and nothing else. With features it
/// holds two candidates, each under the condition that excludes the other: the timed
/// statements where one of the features is on, and last the old body, token for token, where
/// none is.
pub proof fn gate_keeps_the_old_body(settings: Settings, function_name: Seq<char>, block: Seq<
    Token,
>)
    ensures
        settings.features.len() == 0 ==> body(settings, function_name, block)
            == timed_statements(settings.printer, settings.time_unit, function_name, block),
        settings.features.len() > 0 ==> body(settings, function_name, block) == cfg_attribute(
            any_feature(settings.features),
        ) + seq![
            Token::Group(
                Delimiter::Brace,
                timed_statements(settings.printer, settings.time_unit, function_name, block),
            ),
        ] + cfg_attribute(negated(any_feature(settings.features))) + block,
        settings.features.len() > 0 ==> body(settings, function_name, block).skip(
            body(settings, function_name, block).len() - block.len(),
        ) == block,
{
}

} // verus!
