//! The audio devices that the operator is offered.

use crate::find::{copied, filter_ends, filter_one_more, first_where, first_where_found, first_where_is, sifted_was_there};
use crate::text::{
    begins, find_from, find_from_reaches, from_chars, same_chars, skipped, spells, taken, to_chars, trim, trim_end,
    trimmed,
};
use vstd::prelude::*;

verus! {

/// An audio endpoint, capture or playback, as offered to the operator.
#[derive(Clone, Debug, PartialEq, Eq)]
pub struct AudioDevice {
    /// Stable identifier, safe to remember. A name is not: many inputs of one
    /// machine may share it.
    pub id: String,
    /// What to show in the picker.
    pub label: String,
}

/// What follows the first colon.
pub open spec fn after_colon(s: Seq<char>) -> Option<Seq<char>> {
    let k = find_from(s, 0, |c: char| c == ':');
    if k < s.len() {
        Some(s.skip(k + 1))
    } else {
        None
    }
}

/// What stands before the first colon.
pub open spec fn before_colon(s: Seq<char>) -> Seq<char> {
    s.take(find_from(s, 0, |c: char| c == ':'))
}

/// A device id without the name of its host.
pub open spec fn without_host(id: Seq<char>) -> Seq<char> {
    match after_colon(id) {
        Some(rest) => rest,
        None => id,
    }
}

/// The value that a comma-separated list gives for `key`, the first where it
/// gives several.
pub open spec fn field(s: Seq<char>, key: Seq<char>) -> Option<Seq<char>>
    decreases s.len(),
{
    let k = find_from(s, 0, |c: char| c == ',');
    let part = trim(s.take(k));
    if key.is_prefix_of(part) {
        Some(part.skip(key.len() as int))
    } else if 0 <= k < s.len() {
        field(s.skip(k + 1), key)
    } else {
        None
    }
}

/// Whether there is nothing but ASCII digits in `s`.
pub open spec fn all_digits(s: Seq<char>) -> bool {
    forall|i: int| 0 <= i < s.len() ==> '0' <= #[trigger] s[i] <= '9'
}

/// The names of the plugins that are genuine capture routes. The rest of what
/// is advertised are converters with no source of their own.
pub open spec fn is_route(pcm: Seq<char>) -> bool {
    pcm == "default"@ || pcm == "pipewire"@ || pcm == "pulse"@ || pcm == "jack"@
}

/// The ways in which a hardware device is exposed, best first. The first
/// converts rate and format, so it opens where the raw one often refuses.
pub open spec fn hw_rank(prefix: Seq<char>) -> Option<int> {
    if prefix == "plughw"@ {
        Some(0)
    } else if prefix == "hw"@ {
        Some(1)
    } else if prefix == "dsnoop"@ {
        Some(2)
    } else if prefix == "sysdefault"@ {
        Some(3)
    } else if prefix == "front"@ {
        Some(4)
    } else {
        None
    }
}

/// The card that a device id names, if it names one.
pub open spec fn card_of(id: Seq<char>) -> Option<Seq<char>> {
    match after_colon(without_host(id)) {
        Some(rest) => field(rest, "CARD="@),
        None => None,
    }
}

/// Whether a device id names a card, and not by number.
pub open spec fn names_a_card(id: Seq<char>) -> bool {
    card_of(id) is Some && !all_digits(card_of(id)->0)
}

/// Whether a device is a plugin that is a capture route.
pub open spec fn is_route_id(id: Seq<char>) -> bool {
    after_colon(without_host(id)) is None && is_route(without_host(id))
}

/// The piece of hardware behind a device, and how good a view of it this is.
#[verifier::ext_equal]
pub struct Endpoint {
    pub card: Seq<char>,
    pub dev: Seq<char>,
    pub rank: int,
}

/// The piece of hardware behind a device id: none for a plugin or an unknown
/// way of exposing one, nor for a card named by number where cards are `named`.
/// A device that is not numbered is the first.
pub open spec fn endpoint(id: Seq<char>, named: bool) -> Option<Endpoint> {
    let pcm = without_host(id);
    match after_colon(pcm) {
        None => None,
        Some(rest) => match (hw_rank(before_colon(pcm)), field(rest, "CARD="@)) {
            (Some(rank), Some(card)) => if named && all_digits(card) {
                None
            } else {
                let dev = match field(rest, "DEV="@) {
                    Some(dev) => dev,
                    None => "0"@,
                };
                Some(Endpoint { card, dev, rank })
            },
            _ => None,
        },
    }
}

/// Whether cards are addressed by name anywhere among `devs`.
pub open spec fn cards_are_named(devs: Seq<AudioDevice>) -> bool {
    exists|i: int| 0 <= i < devs.len() && names_a_card((#[trigger] devs[i]).id@)
}

/// Whether two devices are views of one piece of hardware.
pub open spec fn same_hardware(a: Seq<char>, b: Seq<char>, named: bool) -> bool {
    let x = endpoint(a, named);
    let y = endpoint(b, named);
    x is Some && y is Some && x->0.card == y->0.card && x->0.dev == y->0.dev
}

/// One device for each piece of hardware among `devs`, in the order in which
/// the hardware first comes up: the best view of it, the first where several
/// are as good.
pub open spec fn best_views(devs: Seq<AudioDevice>, named: bool) -> Seq<AudioDevice>
    decreases devs.len(),
{
    if devs.len() == 0 {
        Seq::empty()
    } else {
        let front = best_views(devs.drop_last(), named);
        let d = devs.last();
        let i = first_where(front, |b: AudioDevice| same_hardware(b.id@, d.id@, named));
        if endpoint(d.id@, named) is None {
            front
        } else if i < front.len() {
            if endpoint(d.id@, named)->0.rank < endpoint(front[i].id@, named)->0.rank {
                front.update(i, d)
            } else {
                front
            }
        } else {
            front.push(d)
        }
    }
}

/// What is worth offering of `devs`: the routes, then the hardware.
pub open spec fn winnowed(devs: Seq<AudioDevice>) -> Seq<AudioDevice> {
    devs.filter(|d: AudioDevice| is_route_id(d.id@)) + best_views(devs, cards_are_named(devs))
}

/// Where a character first stands, or the length where it does not.
fn find_char(s: &Vec<char>, c: char) -> (k: usize)
    ensures
        k == find_from(s@, 0, |x: char| x == c),
        k <= s@.len(),
{
    let ghost p = |x: char| x == c;
    let mut k: usize = 0;
    while k < s.len() && s[k] != c
        invariant
            0 <= k <= s@.len(),
            p == (|x: char| x == c),
            forall|j: int| 0 <= j < k ==> !p(#[trigger] s@[j]),
        decreases s.len() - k,
    {
        k += 1;
    }
    proof {
        find_from_reaches(s@, 0, p, k as int);
    }
    k
}

/// A device id without the name of its host.
fn drop_host(id: &str) -> (out: Vec<char>)
    ensures
        out@ == without_host(id@),
{
    let chars = to_chars(id);
    let k: usize = find_char(&chars, ':');
    if k < chars.len() {
        skipped(&chars, k + 1)
    } else {
        chars
    }
}

/// The value that a comma-separated list gives for `key`.
fn find_field(list: &Vec<char>, key: &str) -> (value: Option<Vec<char>>)
    ensures
        match value {
            Some(v) => field(list@, key@) == Some(v@),
            None => field(list@, key@) is None,
        },
{
    let key_chars = to_chars(key);
    let mut s: Vec<char> = copied(list, 0, list.len());
    assert(s@ == list@);
    loop
        invariant
            key_chars@ == key@,
            field(s@, key@) == field(list@, key@),
        decreases s.len(),
    {
        let k: usize = find_char(&s, ',');
        let part = trimmed(&taken(&s, k));
        if begins(&part, &key_chars) {
            return Some(skipped(&part, key_chars.len()));
        }
        if k >= s.len() {
            return None;
        }
        s = skipped(&s, k + 1);
    }
}

/// Whether there is nothing but ASCII digits in `s`.
fn is_number(s: &Vec<char>) -> (r: bool)
    ensures
        r == all_digits(s@),
{
    let mut i: usize = 0;
    while i < s.len()
        invariant
            0 <= i <= s@.len(),
            forall|j: int| 0 <= j < i ==> '0' <= #[trigger] s@[j] <= '9',
        decreases s.len() - i,
    {
        if s[i] < '0' || s[i] > '9' {
            assert(!('0' <= s@[i as int] <= '9'));
            return false;
        }
        i += 1;
    }
    true
}

/// Whether a device id names a card, and not by number.
fn has_named_card(id: &str) -> (r: bool)
    ensures
        r == names_a_card(id@),
{
    let pcm = drop_host(id);
    let k: usize = find_char(&pcm, ':');
    if k >= pcm.len() {
        return false;
    }
    match find_field(&skipped(&pcm, k + 1), "CARD=") {
        Some(card) => !is_number(&card),
        None => false,
    }
}

/// How good a view of hardware a prefix stands for, the best being zero.
fn rank_of(prefix: &Vec<char>) -> (rank: Option<usize>)
    ensures
        match rank {
            Some(r) => hw_rank(prefix@) == Some(r as int),
            None => hw_rank(prefix@) is None,
        },
{
    if spells(prefix, "plughw") {
        Some(0)
    } else if spells(prefix, "hw") {
        Some(1)
    } else if spells(prefix, "dsnoop") {
        Some(2)
    } else if spells(prefix, "sysdefault") {
        Some(3)
    } else if spells(prefix, "front") {
        Some(4)
    } else {
        None
    }
}

/// What is known of a device that may be hardware.
struct Hardware {
    card: Vec<char>,
    dev: Vec<char>,
    rank: usize,
}

/// What a view stands for.
spec fn stands_for(v: Hardware) -> Endpoint {
    Endpoint { card: v.card@, dev: v.dev@, rank: v.rank as int }
}

/// The piece of hardware behind a device id.
fn view_of(id: &str, named: bool) -> (view: Option<Hardware>)
    ensures
        match view {
            Some(v) => endpoint(id@, named) == Some(stands_for(v)),
            None => endpoint(id@, named) is None,
        },
{
    let pcm = drop_host(id);
    let k: usize = find_char(&pcm, ':');
    if k >= pcm.len() {
        return None;
    }
    let rest = skipped(&pcm, k + 1);
    match (rank_of(&taken(&pcm, k)), find_field(&rest, "CARD=")) {
        (Some(rank), Some(card)) => {
            if named && is_number(&card) {
                return None;
            }
            let dev = match find_field(&rest, "DEV=") {
                Some(dev) => dev,
                None => to_chars("0"),
            };
            Some(Hardware { card, dev, rank })
        },
        _ => None,
    }
}

/// Whether a device is a plugin that is a capture route.
fn is_route_device(id: &str) -> (r: bool)
    ensures
        r == is_route_id(id@),
{
    let pcm = drop_host(id);
    let k: usize = find_char(&pcm, ':');
    k >= pcm.len() && (spells(&pcm, "default") || spells(&pcm, "pipewire") || spells(&pcm, "pulse") || spells(
        &pcm,
        "jack",
    ))
}

/// Whether a device id names a PCM that goes through the sound server rather
/// than straight at a card.
pub open spec fn served(id: Seq<char>) -> bool {
    let pcm = if "alsa:"@.is_prefix_of(id) {
        id.skip("alsa:"@.len() as int)
    } else {
        id
    };
    pcm == "default"@ || pcm == "pipewire"@ || pcm == "pulse"@
}

/// Whether a device id names a PCM that goes through the sound server rather
/// than straight at a card.
///
/// Matched whole, not up to the first colon: `default:CARD=PCH` is a card's own
/// default and goes straight at that hardware, while a bare `default` is the
/// server's.
pub fn is_pipewire(id: &str) -> (r: bool)
    ensures
        r == served(id@),
{
    let chars = to_chars(id);
    let host = to_chars("alsa:");
    let pcm = if begins(&chars, &host) {
        skipped(&chars, host.len())
    } else {
        chars
    };
    spells(&pcm, "default") || spells(&pcm, "pipewire") || spells(&pcm, "pulse")
}

/// Reduce the PCMs that are advertised to the ones worth offering.
///
/// 1. A plugin survives only if it is a capture route.
/// 2. A card addressed by number is dropped when any card is addressed by name,
///    since every card is advertised both ways.
/// 3. Of the several ways one device of a card is exposed, the most useful is
///    kept. One that carries no device number means the first.
pub fn winnow(devs: Vec<AudioDevice>) -> (kept: Vec<AudioDevice>)
    ensures
        kept@ == winnowed(devs@),
{
    let ghost all = devs@;
    let mut named = false;
    let mut i: usize = 0;
    while i < devs.len()
        invariant
            0 <= i <= devs@.len(),
            named == exists|j: int| 0 <= j < i && names_a_card((#[trigger] devs@[j]).id@),
        decreases devs.len() - i,
    {
        if has_named_card(devs[i].id.as_str()) {
            assert(names_a_card(devs@[i as int].id@));
            named = true;
        }
        i += 1;
    }
    let ghost p = |d: AudioDevice| is_route_id(d.id@);
    let mut routes: Vec<AudioDevice> = Vec::new();
    let mut best: Vec<AudioDevice> = Vec::new();
    let mut views: Vec<Hardware> = Vec::new();
    proof {
        filter_ends(all, p);
    }
    for d in it: devs
        invariant
            it.seq() == all,
            p == (|d: AudioDevice| is_route_id(d.id@)),
            routes@ == all.take(it.index()).filter(p),
            best@ == best_views(all.take(it.index()), named),
            views@.len() == best@.len(),
            forall|j: int|
                0 <= j < best@.len() ==> endpoint((#[trigger] best@[j]).id@, named) == Some(
                    stands_for(views@[j]),
                ),
    {
        proof {
            filter_one_more(all, p, it.index());
            assert(all.take(it.index() + 1).drop_last() == all.take(it.index()));
        }
        match view_of(d.id.as_str(), named) {
            None => {
                if is_route_device(d.id.as_str()) {
                    routes.push(d);
                }
            },
            Some(v) => {
                let ghost q = |b: AudioDevice| same_hardware(b.id@, d.id@, named);
                let mut k: usize = 0;
                while k < views.len() && !(same_chars(&views[k].card, &v.card) && same_chars(
                    &views[k].dev,
                    &v.dev,
                ))
                    invariant
                        0 <= k <= views@.len(),
                        views@.len() == best@.len(),
                        endpoint(d.id@, named) == Some(stands_for(v)),
                        forall|j: int|
                            0 <= j < best@.len() ==> endpoint((#[trigger] best@[j]).id@, named) == Some(
                                stands_for(views@[j]),
                            ),
                        q == (|b: AudioDevice| same_hardware(b.id@, d.id@, named)),
                        forall|j: int| 0 <= j < k ==> !q(#[trigger] best@[j]),
                    decreases views.len() - k,
                {
                    assert(!q(best@[k as int]));
                    k += 1;
                }
                proof {
                    if k < best@.len() {
                        assert(endpoint(best@[k as int].id@, named) == Some(stands_for(views@[k as int])));
                    }
                    first_where_is(best@, q, k as int);
                }
                if k < views.len() {
                    if v.rank < views[k].rank {
                        best.set(k, d);
                        views.set(k, v);
                    }
                } else {
                    best.push(d);
                    views.push(v);
                }
            },
        }
    }
    proof {
        filter_ends(all, p);
    }
    routes.append(&mut best);
    routes
}

/// Whether another of `devs` is labelled as device `i` is.
pub open spec fn label_is_shared(devs: Seq<AudioDevice>, i: int) -> bool {
    exists|j: int| 0 <= j < devs.len() && j != i && (#[trigger] devs[j]).label@ == devs[i].label@
}

/// A label with the identifier behind it.
pub open spec fn tagged(label: Seq<char>, id: Seq<char>) -> Seq<char> {
    label + " ["@ + without_host(id) + "]"@
}

/// A label, without the blanks around it and the commas at its end, with the
/// identifier behind it.
pub open spec fn told_apart(label: Seq<char>, id: Seq<char>) -> Seq<char> {
    tagged(trim_end(trim(label), |c: char| c == ','), id)
}

/// What device `i` would be labelled by its own and the other labels alone: with
/// its identifier where the label is shared, and as it is where it is not.
pub open spec fn marked_label(devs: Seq<AudioDevice>, i: int) -> Seq<char> {
    if label_is_shared(devs, i) {
        told_apart(devs[i].label@, devs[i].id@)
    } else {
        devs[i].label@
    }
}

/// How long the longest of `labels` is.
pub open spec fn longest(labels: Seq<Seq<char>>) -> nat
    decreases labels.len(),
{
    if labels.len() == 0 {
        0
    } else if labels.last().len() > longest(labels.drop_last()) {
        labels.last().len()
    } else {
        longest(labels.drop_last())
    }
}

/// How much longer `label` has to get to be longer than each of `taken`.
pub open spec fn falls_short(taken: Seq<Seq<char>>, label: Seq<char>) -> nat {
    if label.len() <= longest(taken) {
        (longest(taken) + 1 - label.len()) as nat
    } else {
        0
    }
}

/// None of `labels` is longer than the longest.
pub proof fn longest_is_longest(labels: Seq<Seq<char>>, label: Seq<char>)
    requires
        labels.contains(label),
    ensures
        label.len() <= longest(labels),
    decreases labels.len(),
{
    let k = choose|k: int| 0 <= k < labels.len() && labels[k] == label;
    if k < labels.len() - 1 {
        assert(labels.drop_last()[k] == label);
        longest_is_longest(labels.drop_last(), label);
    }
}

/// A label is longer with the identifier behind it.
pub proof fn a_tag_lengthens(label: Seq<char>, id: Seq<char>)
    ensures
        tagged(label, id).len() > label.len(),
{
    reveal_strlit(" [");
}

/// A label with the identifier behind it as often again as it takes to be none
/// of those `taken`.
pub open spec fn unlike(taken: Seq<Seq<char>>, label: Seq<char>, id: Seq<char>) -> Seq<char>
    decreases falls_short(taken, label),
{
    if taken.contains(label) {
        proof {
            longest_is_longest(taken, label);
            a_tag_lengthens(label, id);
        }
        unlike(taken, tagged(label, id), id)
    } else {
        label
    }
}

proof fn unlike_is_unlike(taken: Seq<Seq<char>>, label: Seq<char>, id: Seq<char>)
    ensures
        !taken.contains(unlike(taken, label, id)),
    decreases falls_short(taken, label),
{
    if taken.contains(label) {
        longest_is_longest(taken, label);
        a_tag_lengthens(label, id);
        unlike_is_unlike(taken, tagged(label, id), id);
    }
}

/// The labels, among those of the first `n` devices, that no other device has.
pub open spec fn plain_labels(devs: Seq<AudioDevice>, n: int) -> Seq<Seq<char>>
    decreases n,
{
    if n <= 0 {
        Seq::empty()
    } else if label_is_shared(devs, n - 1) {
        plain_labels(devs, n - 1)
    } else {
        plain_labels(devs, n - 1).push(devs[n - 1].label@)
    }
}

proof fn plain_labels_hold(devs: Seq<AudioDevice>, n: int, i: int)
    requires
        0 <= i < n,
        !label_is_shared(devs, i),
    ensures
        plain_labels(devs, n).contains(devs[i].label@),
    decreases n,
{
    let all = plain_labels(devs, n);
    if i == n - 1 {
        assert(all[all.len() - 1] == devs[i].label@);
    } else {
        plain_labels_hold(devs, n - 1, i);
        let front = plain_labels(devs, n - 1);
        let k = choose|k: int| 0 <= k < front.len() && front[k] == devs[i].label@;
        assert(all[k] == devs[i].label@);
    }
}

proof fn plain_labels_are_plain(devs: Seq<AudioDevice>, n: int, label: Seq<char>)
    requires
        plain_labels(devs, n).contains(label),
    ensures
        exists|i: int| 0 <= i < n && !label_is_shared(devs, i) && (#[trigger] devs[i]).label@ == label,
    decreases n,
{
    if n > 0 {
        let all = plain_labels(devs, n);
        let front = plain_labels(devs, n - 1);
        let k = choose|k: int| 0 <= k < all.len() && all[k] == label;
        if k < front.len() {
            assert(front[k] == label);
            plain_labels_are_plain(devs, n - 1, label);
        } else {
            assert(devs[n - 1].label@ == label);
        }
    }
}

/// What the first `n` devices are labelled so that no two labels read the same.
/// Labels that no other device has stay as they are. Each of the others gets its
/// identifier, and gets it again for as long as it reads like one of those or
/// like one that came before it.
pub open spec fn clear_labels(devs: Seq<AudioDevice>, n: int) -> Seq<Seq<char>>
    decreases n,
{
    if n <= 0 {
        Seq::empty()
    } else {
        let front = clear_labels(devs, n - 1);
        let label = if label_is_shared(devs, n - 1) {
            unlike(plain_labels(devs, devs.len() as int) + front, marked_label(devs, n - 1), devs[n - 1].id@)
        } else {
            devs[n - 1].label@
        };
        front.push(label)
    }
}

/// What device `i` is labelled so that no two labels read the same.
pub open spec fn clear_label(devs: Seq<AudioDevice>, i: int) -> Seq<char> {
    clear_labels(devs, i + 1).last()
}

proof fn clear_labels_are_clear(devs: Seq<AudioDevice>, n: int, i: int)
    requires
        0 <= i < n,
    ensures
        clear_labels(devs, n).len() == n,
        clear_labels(devs, n)[i] == clear_label(devs, i),
    decreases n,
{
    reveal_with_fuel(clear_labels, 2);
    if n > 1 {
        clear_labels_are_clear(devs, n - 1, if i < n - 1 { i } else { 0 });
    }
}

/// A label with the identifier behind it.
fn tag(label: &mut Vec<char>, id: &str)
    ensures
        final(label)@ == tagged(old(label)@, id@),
{
    let ghost before = label@;
    let mut opening = to_chars(" [");
    let mut tail = drop_host(id);
    let mut closing = to_chars("]");
    label.append(&mut opening);
    label.append(&mut tail);
    label.append(&mut closing);
    assert(label@ == tagged(before, id@));
}

/// A label with the identifier behind it.
fn tell_apart(label: &str, id: &str) -> (out: Vec<char>)
    ensures
        out@ == told_apart(label@, id@),
{
    let mut base = trimmed(&to_chars(label));
    let ghost p = |c: char| c == ',';
    let ghost all = trim_end(base@, p);
    while base.len() > 0 && base[base.len() - 1] == ','
        invariant
            p == (|c: char| c == ','),
            trim_end(base@, p) == all,
        decreases base.len(),
    {
        let ghost before = base@;
        base.pop();
        assert(base@ == before.drop_last());
    }
    tag(&mut base, id);
    base
}

/// Whether `label` is one of those `taken`.
fn is_taken(taken: &Vec<Vec<char>>, label: &Vec<char>) -> (r: bool)
    ensures
        r == taken@.map_values(|l: Vec<char>| l@).contains(label@),
{
    let ghost all = taken@.map_values(|l: Vec<char>| l@);
    let mut i: usize = 0;
    while i < taken.len()
        invariant
            0 <= i <= taken@.len(),
            all == taken@.map_values(|l: Vec<char>| l@),
            forall|j: int| 0 <= j < i ==> #[trigger] all[j] != label@,
        decreases taken.len() - i,
    {
        assert(all[i as int] == taken@[i as int]@);
        if same_chars(&taken[i], label) {
            return true;
        }
        i += 1;
    }
    false
}

/// A label with the identifier behind it as often again as it takes to be none
/// of those `taken`.
fn make_unlike(taken: &Vec<Vec<char>>, label: Vec<char>, id: &str) -> (out: Vec<char>)
    ensures
        out@ == unlike(taken@.map_values(|l: Vec<char>| l@), label@, id@),
{
    let ghost all = taken@.map_values(|l: Vec<char>| l@);
    let mut out = label;
    while is_taken(taken, &out)
        invariant
            all == taken@.map_values(|l: Vec<char>| l@),
            unlike(all, out@, id@) == unlike(all, label@, id@),
        decreases falls_short(all, out@),
    {
        proof {
            longest_is_longest(all, out@);
            a_tag_lengthens(out@, id@);
        }
        tag(&mut out, id);
    }
    out
}

/// Whether another of `labels` reads as label `k` does.
fn is_shared(labels: &Vec<Vec<char>>, k: usize, Ghost(devs): Ghost<Seq<AudioDevice>>) -> (shared: bool)
    requires
        k < labels@.len(),
        labels@.len() == devs.len(),
        forall|m: int| 0 <= m < devs.len() ==> (#[trigger] labels@[m])@ == devs[m].label@,
    ensures
        shared == label_is_shared(devs, k as int),
{
    let mut j: usize = 0;
    while j < labels.len()
        invariant
            0 <= j <= labels@.len(),
            k < labels@.len(),
            labels@.len() == devs.len(),
            forall|m: int| 0 <= m < devs.len() ==> (#[trigger] labels@[m])@ == devs[m].label@,
            forall|m: int| 0 <= m < j && m != k ==> (#[trigger] devs[m]).label@ != devs[k as int].label@,
        decreases labels.len() - j,
    {
        assert(labels@[j as int]@ == devs[j as int].label@);
        assert(labels@[k as int]@ == devs[k as int].label@);
        if j != k && same_chars(&labels[j], &labels[k]) {
            return true;
        }
        j += 1;
    }
    false
}

/// Make every label distinct by appending the identifier where two would read
/// the same, and as often as that takes.
///
/// Only the host is stripped from the identifier: what distinguishes
/// `alsa:hw:CARD=x,DEV=0` from `alsa:plughw:CARD=x,DEV=0` is the part in the
/// middle.
pub fn disambiguate(devs: &mut Vec<AudioDevice>)
    ensures
        final(devs)@.len() == old(devs)@.len(),
        forall|i: int|
            0 <= i < old(devs)@.len() ==> {
                &&& (#[trigger] final(devs)@[i]).id@ == old(devs)@[i].id@
                &&& final(devs)@[i].label@ == clear_label(old(devs)@, i)
            },
        forall|i: int, j: int|
            0 <= i < j < final(devs)@.len() ==> (#[trigger] final(devs)@[i]).label@ != (
            #[trigger] final(devs)@[j]).label@,
{
    let ghost all = devs@;
    let mut labels: Vec<Vec<char>> = Vec::new();
    let mut i: usize = 0;
    while i < devs.len()
        invariant
            0 <= i <= devs@.len(),
            devs@ == all,
            labels@.len() == i,
            forall|j: int| 0 <= j < i ==> (#[trigger] labels@[j])@ == all[j].label@,
        decreases devs.len() - i,
    {
        labels.push(to_chars(devs[i].label.as_str()));
        i += 1;
    }
    let ghost chars = |l: Vec<char>| l@;
    let mut shared: Vec<bool> = Vec::new();
    let mut taken: Vec<Vec<char>> = Vec::new();
    let mut m: usize = 0;
    while m < labels.len()
        invariant
            0 <= m <= labels@.len(),
            labels@.len() == all.len(),
            forall|j: int| 0 <= j < all.len() ==> (#[trigger] labels@[j])@ == all[j].label@,
            chars == (|l: Vec<char>| l@),
            shared@.len() == m,
            forall|j: int| 0 <= j < m ==> #[trigger] shared@[j] == label_is_shared(all, j),
            taken@.map_values(chars) == plain_labels(all, m as int),
        decreases labels.len() - m,
    {
        let again = is_shared(&labels, m, Ghost(all));
        let ghost before = taken@;
        if !again {
            let own = copied(&labels[m], 0, labels[m].len());
            assert(labels@[m as int]@ == all[m as int].label@);
            assert(own@ == all[m as int].label@);
            taken.push(own);
            assert(taken@.map_values(chars) == before.map_values(chars).push(own@));
        }
        shared.push(again);
        m += 1;
    }
    let ghost plain = plain_labels(all, all.len() as int);
    let mut out: Vec<AudioDevice> = Vec::new();
    let mut k: usize = 0;
    assert(plain + clear_labels(all, 0) == plain);
    while k < labels.len()
        invariant
            0 <= k <= labels@.len(),
            devs@ == all,
            labels@.len() == all.len(),
            shared@.len() == all.len(),
            forall|j: int| 0 <= j < all.len() ==> #[trigger] shared@[j] == label_is_shared(all, j),
            forall|j: int| 0 <= j < all.len() ==> (#[trigger] labels@[j])@ == all[j].label@,
            chars == (|l: Vec<char>| l@),
            plain == plain_labels(all, all.len() as int),
            taken@.map_values(chars) == plain + clear_labels(all, k as int),
            out@.len() == k,
            forall|j: int|
                0 <= j < k ==> (#[trigger] out@[j]).id@ == all[j].id@ && out@[j].label@ == clear_label(all, j),
        decreases labels.len() - k,
    {
        let d = &devs[k];
        let label = if shared[k] {
            make_unlike(&taken, tell_apart(d.label.as_str(), d.id.as_str()), d.id.as_str())
        } else {
            to_chars(d.label.as_str())
        };
        let ghost before = taken@;
        assert(clear_labels(all, k + 1) == clear_labels(all, k as int).push(label@));
        out.push(AudioDevice { id: d.id.clone(), label: from_chars(&label, 0, label.len()) });
        assert(label@.subrange(0, label@.len() as int) == label@);
        taken.push(label);
        assert(taken@.map_values(chars) == before.map_values(chars).push(label@));
        assert(plain + clear_labels(all, k + 1) == (plain + clear_labels(all, k as int)).push(label@));
        k += 1;
    }
    proof {
        assert forall|i: int, j: int| 0 <= i < j < out@.len() implies (#[trigger] out@[i]).label@ != (
        #[trigger] out@[j]).label@ by {
            no_label_is_offered_twice(all, i, j);
        }
    }
    *devs = out;
}

/// No piece of hardware is offered twice.
pub proof fn hardware_is_offered_once(devs: Seq<AudioDevice>, named: bool, i: int, j: int)
    requires
        0 <= i < j < best_views(devs, named).len(),
    ensures
        !same_hardware(best_views(devs, named)[i].id@, best_views(devs, named)[j].id@, named),
    decreases devs.len(),
{
    let front = best_views(devs.drop_last(), named);
    let d = devs.last();
    let p = |b: AudioDevice| same_hardware(b.id@, d.id@, named);
    let k = first_where(front, p);
    first_where_found(front, p);
    let all = best_views(devs, named);
    if endpoint(d.id@, named) is Some {
        if k < front.len() {
            hardware_is_offered_once(devs.drop_last(), named, i, j);
            assert(p(front[k]));
            assert(all == front || all == front.update(k, d));
        } else {
            if j < front.len() {
                hardware_is_offered_once(devs.drop_last(), named, i, j);
            } else {
                assert(!p(front[i]));
            }
        }
    } else {
        hardware_is_offered_once(devs.drop_last(), named, i, j);
    }
}

/// Every piece of hardware is offered, by a device no worse a view of it than
/// any that was advertised.
pub proof fn hardware_is_offered_by_its_best_view(devs: Seq<AudioDevice>, named: bool, i: int)
    requires
        0 <= i < devs.len(),
        endpoint(devs[i].id@, named) is Some,
    ensures
        exists|k: int| #[trigger] offers(best_views(devs, named), k, devs[i].id@, named),
    decreases devs.len(),
{
    let front = best_views(devs.drop_last(), named);
    let d = devs.last();
    let p = |b: AudioDevice| same_hardware(b.id@, d.id@, named);
    let m = first_where(front, p);
    first_where_found(front, p);
    let all = best_views(devs, named);
    if i < devs.len() - 1 {
        assert(devs.drop_last()[i] == devs[i]);
        hardware_is_offered_by_its_best_view(devs.drop_last(), named, i);
        let k = choose|k: int| #[trigger] offers(front, k, devs[i].id@, named);
        assert(offers(all, k, devs[i].id@, named)) by {
            if endpoint(d.id@, named) is Some && m < front.len() {
                assert(p(front[m]));
            }
        }
    } else {
        if m < front.len() {
            assert(p(front[m]));
            assert(offers(all, m, d.id@, named));
        } else {
            assert(offers(all, front.len() as int, d.id@, named));
        }
    }
}

/// Whether device `k` of `offered` is the hardware behind `id`, and as good a
/// view of it.
pub open spec fn offers(offered: Seq<AudioDevice>, k: int, id: Seq<char>, named: bool) -> bool {
    &&& 0 <= k < offered.len()
    &&& same_hardware(offered[k].id@, id, named)
    &&& endpoint(offered[k].id@, named)->0.rank <= endpoint(id, named)->0.rank
}

/// Nothing is offered that was not advertised.
pub proof fn what_is_offered_was_advertised(devs: Seq<AudioDevice>, i: int)
    requires
        0 <= i < winnowed(devs).len(),
    ensures
        devs.contains(winnowed(devs)[i]),
{
    let p = |d: AudioDevice| is_route_id(d.id@);
    let routes = devs.filter(p);
    let named = cards_are_named(devs);
    if i < routes.len() {
        sifted_was_there(devs, p, i);
    } else {
        best_view_was_advertised(devs, named, i - routes.len());
    }
}

proof fn best_view_was_advertised(devs: Seq<AudioDevice>, named: bool, i: int)
    requires
        0 <= i < best_views(devs, named).len(),
    ensures
        devs.contains(best_views(devs, named)[i]),
    decreases devs.len(),
{
    let front = best_views(devs.drop_last(), named);
    let all = best_views(devs, named);
    let d = devs.last();
    first_where_found(front, |b: AudioDevice| same_hardware(b.id@, d.id@, named));
    if i < front.len() && all[i] == front[i] {
        best_view_was_advertised(devs.drop_last(), named, i);
        let k = choose|k: int| 0 <= k < devs.len() - 1 && devs.drop_last()[k] == front[i];
        assert(devs[k] == all[i]);
    } else {
        assert(all[i] == devs[devs.len() - 1]);
    }
}

/// No two devices are labelled the same, whatever they are labelled and whatever
/// their identifiers.
pub proof fn no_label_is_offered_twice(devs: Seq<AudioDevice>, i: int, j: int)
    requires
        0 <= i < j < devs.len(),
    ensures
        clear_label(devs, i) != clear_label(devs, j),
{
    let n = devs.len() as int;
    let plain = plain_labels(devs, n);
    if label_is_shared(devs, j) {
        let front = clear_labels(devs, j);
        clear_labels_are_clear(devs, j, i);
        unlike_is_unlike(plain + front, marked_label(devs, j), devs[j].id@);
        assert((plain + front)[plain.len() + i] == clear_label(devs, i));
    } else if label_is_shared(devs, i) {
        let front = clear_labels(devs, i);
        plain_labels_hold(devs, n, j);
        let k = choose|k: int| 0 <= k < plain.len() && plain[k] == devs[j].label@;
        unlike_is_unlike(plain + front, marked_label(devs, i), devs[i].id@);
        assert((plain + front)[k] == clear_label(devs, j));
    }
}

/// Two devices that were labelled alike are told apart by their identifiers,
/// unless those differ in nothing but the host.
pub proof fn shared_labels_are_told_apart(devs: Seq<AudioDevice>, i: int, j: int)
    requires
        0 <= i < devs.len(),
        0 <= j < devs.len(),
        i != j,
        devs[i].label@ == devs[j].label@,
    ensures
        marked_label(devs, i) == marked_label(devs, j) <==> without_host(devs[i].id@) == without_host(
            devs[j].id@,
        ),
{
    assert(label_is_shared(devs, i) && label_is_shared(devs, j));
    let base = trim_end(trim(devs[i].label@), |c: char| c == ',') + " ["@;
    let a = without_host(devs[i].id@);
    let b = without_host(devs[j].id@);
    assert(marked_label(devs, i) == base + a + "]"@);
    assert(marked_label(devs, j) == base + b + "]"@);
    if base + a + "]"@ == base + b + "]"@ {
        assert(a.len() == b.len());
        assert forall|k: int| 0 <= k < a.len() implies a[k] == b[k] by {
            assert((base + a + "]"@)[base.len() + k] == a[k]);
            assert((base + b + "]"@)[base.len() + k] == b[k]);
        }
        assert(a == b);
    }
}

/// Where the identifiers, put behind the labels that are shared, leave no two
/// labels alike, none is put there twice.
pub proof fn an_identifier_is_given_once_where_that_will_do(devs: Seq<AudioDevice>, i: int)
    requires
        0 <= i < devs.len(),
        forall|a: int, b: int|
            0 <= a < b < devs.len() ==> #[trigger] marked_label(devs, a) != #[trigger] marked_label(devs, b),
    ensures
        clear_label(devs, i) == marked_label(devs, i),
    decreases i,
{
    if label_is_shared(devs, i) {
        let n = devs.len() as int;
        let plain = plain_labels(devs, n);
        let front = clear_labels(devs, i);
        let label = marked_label(devs, i);
        if (plain + front).contains(label) {
            let k = choose|k: int| 0 <= k < (plain + front).len() && (plain + front)[k] == label;
            if k < plain.len() {
                assert(plain[k] == label);
                plain_labels_are_plain(devs, n, label);
                let m = choose|m: int| 0 <= m < n && !label_is_shared(devs, m) && (#[trigger] devs[m]).label@ == label;
                assert(marked_label(devs, m) == label);
            } else {
                let m = k - plain.len();
                if i > 0 {
                    clear_labels_are_clear(devs, i, 0);
                }
                assert(front[m] == label);
                clear_labels_are_clear(devs, i, m);
                an_identifier_is_given_once_where_that_will_do(devs, m);
                assert(marked_label(devs, m) == label);
            }
        }
    }
}

/// A label that no other device has is left as it was.
pub proof fn a_clear_label_is_left_alone(devs: Seq<AudioDevice>, i: int)
    requires
        0 <= i < devs.len(),
        forall|j: int| 0 <= j < devs.len() && j != i ==> (#[trigger] devs[j]).label@ != devs[i].label@,
    ensures
        clear_label(devs, i) == devs[i].label@,
{
}

/// The devices to offer of those there are: all of them, or those worth
/// offering; and no two under one label.
pub fn offer(devs: Vec<AudioDevice>, all: bool) -> (out: Vec<AudioDevice>)
    ensures
        ({
            let kept = if all { devs@ } else { winnowed(devs@) };
            &&& out@.len() == kept.len()
            &&& forall|i: int|
                0 <= i < kept.len() ==> {
                    &&& (#[trigger] out@[i]).id@ == kept[i].id@
                    &&& out@[i].label@ == clear_label(kept, i)
                }
        }),
        forall|i: int, j: int|
            0 <= i < j < out@.len() ==> (#[trigger] out@[i]).label@ != (#[trigger] out@[j]).label@,
{
    let mut out = if all {
        devs
    } else {
        winnow(devs)
    };
    disambiguate(&mut out);
    out
}

} // verus!
