//! What holds of the devices on offer: every capture route is offered, every piece
//! of hardware once and by its best view, and nothing that is neither.

use crate::devices::{
    after_colon, all_digits, before_colon, best_views, card_of, cards_are_named, endpoint, field,
    hardware_is_offered_by_its_best_view, hardware_is_offered_once, hw_rank, is_route_id, names_a_card, offers,
    same_hardware, served, winnowed, without_host, AudioDevice,
};
use crate::find::{first_where, first_where_found, sifted_is_kept, sifted_was_there};
use crate::text::{find_from, find_from_reaches, trim, white_space};
use vstd::prelude::*;

verus! {

/// Whether there is no `c` in `s`.
pub open spec fn lacks(s: Seq<char>, c: char) -> bool {
    forall|i: int| 0 <= i < s.len() ==> #[trigger] s[i] != c
}

/// The host is what stands before the first colon, and goes with it; an identifier
/// without a colon has none.
pub proof fn the_host_is_dropped(host: Seq<char>, rest: Seq<char>)
    requires
        lacks(host, ':'),
    ensures
        without_host(host + seq![':'] + rest) == rest,
        without_host(host) == host,
{
    let s = host + seq![':'] + rest;
    let p = |c: char| c == ':';
    assert forall|j: int| 0 <= j < host.len() implies !p(#[trigger] s[j]) by {
        assert(s[j] == host[j]);
    }
    assert(s[host.len() as int] == ':');
    find_from_reaches(s, 0, p, host.len() as int);
    assert(s.skip(host.len() as int + 1) == rest);
    find_from_reaches(host, 0, p, host.len() as int);
}

proof fn nothing_to_trim(s: Seq<char>)
    requires
        s.len() > 0 ==> !white_space(s[0]) && !white_space(s.last()),
    ensures
        trim(s) == s,
{
    let solid = |c: char| !white_space(c);
    if s.len() > 0 {
        find_from_reaches(s, 0, solid, 0);
        assert(s.skip(0) == s);
    } else {
        find_from_reaches(s, 0, solid, 0);
        assert(s.skip(0) == s);
    }
}

proof fn the_first_part(part: Seq<char>, rest: Seq<char>)
    requires
        lacks(part, ','),
    ensures
        ({
            let p = |c: char| c == ',';
            &&& find_from(part, 0, p) == part.len()
            &&& part.take(part.len() as int) == part
            &&& find_from(part + seq![','] + rest, 0, p) == part.len()
            &&& (part + seq![','] + rest).take(part.len() as int) == part
            &&& (part + seq![','] + rest).skip(part.len() as int + 1) == rest
        }),
{
    let p = |c: char| c == ',';
    let s = part + seq![','] + rest;
    assert forall|j: int| 0 <= j < part.len() implies !p(#[trigger] s[j]) by {
        assert(s[j] == part[j]);
    }
    assert(s[part.len() as int] == ',');
    find_from_reaches(s, 0, p, part.len() as int);
    find_from_reaches(part, 0, p, part.len() as int);
}

/// A list gives for a key what stands behind the key in its first part that begins
/// with it, up to the comma.
pub proof fn a_list_gives_what_stands_behind_the_key(key: Seq<char>, value: Seq<char>, rest: Seq<char>)
    requires
        key.len() > 0,
        !white_space(key[0]),
        !white_space((key + value).last()),
        lacks(key + value, ','),
    ensures
        field(key + value + seq![','] + rest, key) == Some(value),
        field(key + value, key) == Some(value),
{
    let part = key + value;
    assert(part[0] == key[0]);
    the_first_part(part, rest);
    nothing_to_trim(part);
    assert(key.is_prefix_of(part));
    assert(part.skip(key.len() as int) == value);
}

/// A part that does not begin with the key is passed over.
pub proof fn another_part_is_passed_over(part: Seq<char>, rest: Seq<char>, key: Seq<char>)
    requires
        lacks(part, ','),
        !key.is_prefix_of(trim(part)),
    ensures
        field(part + seq![','] + rest, key) == field(rest, key),
        field(part, key) is None,
{
    the_first_part(part, rest);
}

/// Every capture route that is advertised is offered.
pub proof fn every_route_is_offered(devs: Seq<AudioDevice>, i: int)
    requires
        0 <= i < devs.len(),
        is_route_id(devs[i].id@),
    ensures
        winnowed(devs).contains(devs[i]),
{
    let p = |d: AudioDevice| is_route_id(d.id@);
    sifted_is_kept(devs, p, devs[i]);
    let routes = devs.filter(p);
    let k = choose|k: int| 0 <= k < routes.len() && routes[k] == devs[i];
    assert(winnowed(devs)[k] == devs[i]);
}

proof fn a_best_view_is_hardware(devs: Seq<AudioDevice>, named: bool, i: int)
    requires
        0 <= i < best_views(devs, named).len(),
    ensures
        endpoint(best_views(devs, named)[i].id@, named) is Some,
    decreases devs.len(),
{
    let front = best_views(devs.drop_last(), named);
    let d = devs.last();
    let p = |b: AudioDevice| crate::devices::same_hardware(b.id@, d.id@, named);
    first_where_found(front, p);
    if i < front.len() {
        a_best_view_is_hardware(devs.drop_last(), named, i);
    }
}

/// Whatever is offered is a capture route or hardware, and hardware goes by its
/// card's name wherever cards have names.
pub proof fn what_is_offered_is_a_route_or_hardware(devs: Seq<AudioDevice>, i: int)
    requires
        0 <= i < winnowed(devs).len(),
    ensures
        ({
            let id = winnowed(devs)[i].id@;
            ||| is_route_id(id)
            ||| {
                &&& card_of(id) is Some
                &&& (exists|j: int| 0 <= j < devs.len() && names_a_card((#[trigger] devs[j]).id@)) ==> !all_digits(
                    card_of(id)->0,
                )
            }
        }),
{
    let p = |d: AudioDevice| is_route_id(d.id@);
    let routes = devs.filter(p);
    let named = cards_are_named(devs);
    if i < routes.len() {
        sifted_was_there(devs, p, i);
    } else {
        a_best_view_is_hardware(devs, named, i - routes.len());
    }
}

/// Routes come before hardware: behind a piece of hardware there is no route.
pub proof fn routes_come_first(devs: Seq<AudioDevice>, i: int, j: int)
    requires
        0 <= i < j < winnowed(devs).len(),
        is_route_id(winnowed(devs)[j].id@),
    ensures
        is_route_id(winnowed(devs)[i].id@),
{
    let p = |d: AudioDevice| is_route_id(d.id@);
    let routes = devs.filter(p);
    if j >= routes.len() {
        a_best_view_is_hardware(devs, cards_are_named(devs), j - routes.len());
    } else {
        sifted_was_there(devs, p, i);
    }
}

/// The views of hardware by their names, best first: the one that converts rate and
/// format, the raw one, the shared one, the default and the front speakers. Nothing
/// else is a view of hardware.
pub proof fn views_by_name(p: Seq<char>)
    ensures
        hw_rank(p) == Some(0int) <==> p == seq!['p', 'l', 'u', 'g', 'h', 'w'],
        hw_rank(p) == Some(1int) <==> p == seq!['h', 'w'],
        hw_rank(p) == Some(2int) <==> p == seq!['d', 's', 'n', 'o', 'o', 'p'],
        hw_rank(p) == Some(3int) <==> p == seq!['s', 'y', 's', 'd', 'e', 'f', 'a', 'u', 'l', 't'],
        hw_rank(p) == Some(4int) <==> p == seq!['f', 'r', 'o', 'n', 't'],
        hw_rank(p) matches Some(r) ==> 0 <= r <= 4,
{
    reveal_strlit("plughw");
    reveal_strlit("hw");
    reveal_strlit("dsnoop");
    reveal_strlit("sysdefault");
    reveal_strlit("front");
    assert("plughw"@ == seq!['p', 'l', 'u', 'g', 'h', 'w']);
    assert("hw"@ == seq!['h', 'w']);
    assert("dsnoop"@ == seq!['d', 's', 'n', 'o', 'o', 'p']);
    assert("sysdefault"@ == seq!['s', 'y', 's', 'd', 'e', 'f', 'a', 'u', 'l', 't']);
    assert("front"@ == seq!['f', 'r', 'o', 'n', 't']);
    assert("plughw"@[0] == 'p' && "dsnoop"@[0] == 'd');
}

/// The routes by their names: four plugins, and nothing that goes on behind a colon.
pub proof fn routes_by_name(pcm: Seq<char>)
    requires
        lacks(pcm, ':'),
    ensures
        is_route_id(seq!['a', 'l', 's', 'a', ':'] + pcm) <==> {
            ||| pcm == seq!['d', 'e', 'f', 'a', 'u', 'l', 't']
            ||| pcm == seq!['p', 'i', 'p', 'e', 'w', 'i', 'r', 'e']
            ||| pcm == seq!['p', 'u', 'l', 's', 'e']
            ||| pcm == seq!['j', 'a', 'c', 'k']
        },
{
    reveal_strlit("default");
    reveal_strlit("pipewire");
    reveal_strlit("pulse");
    reveal_strlit("jack");
    assert("default"@ == seq!['d', 'e', 'f', 'a', 'u', 'l', 't']);
    assert("pipewire"@ == seq!['p', 'i', 'p', 'e', 'w', 'i', 'r', 'e']);
    assert("pulse"@ == seq!['p', 'u', 'l', 's', 'e']);
    assert("jack"@ == seq!['j', 'a', 'c', 'k']);
    let host = seq!['a', 'l', 's', 'a'];
    the_host_is_dropped(host, pcm);
    assert(host + seq![':'] + pcm == seq!['a', 'l', 's', 'a', ':'] + pcm);
    let p = |c: char| c == ':';
    find_from_reaches(pcm, 0, p, pcm.len() as int);
}

/// What goes through the sound server does so by its bare name, with the host in
/// front or without: nothing that names a card or a device does.
pub proof fn only_bare_names_are_served(id: Seq<char>)
    requires
        served(id),
    ensures
        after_colon(without_host(id)) is None,
        is_route_id(id),
{
    reveal_strlit("alsa:");
    reveal_strlit("default");
    reveal_strlit("pipewire");
    reveal_strlit("pulse");
    let p = |c: char| c == ':';
    let host = seq!['a', 'l', 's', 'a'];
    let pcm = if "alsa:"@.is_prefix_of(id) {
        id.skip(5)
    } else {
        id
    };
    assert(lacks(pcm, ':'));
    find_from_reaches(pcm, 0, p, pcm.len() as int);
    if "alsa:"@.is_prefix_of(id) {
        assert("alsa:"@ == host + seq![':']);
        assert(id == host + seq![':'] + pcm);
        the_host_is_dropped(host, pcm);
    } else {
        the_host_is_dropped(pcm, pcm);
    }
}

/// A card goes by number where there is nothing but figures in its name, and by name
/// otherwise.
pub proof fn a_card_goes_by_name_or_number(id: Seq<char>)
    requires
        card_of(id) is Some,
    ensures
        names_a_card(id) <==> exists|i: int|
            0 <= i < card_of(id)->0.len() && !('0' <= #[trigger] card_of(id)->0[i] <= '9'),
        names_a_card(id) <==> !all_digits(card_of(id)->0),
{
}

/// A card that goes by name is hardware whether or not other cards have names; one
/// that goes by number is where none has.
pub proof fn a_named_card_is_hardware(id: Seq<char>)
    ensures
        names_a_card(id) ==> endpoint(id, true) == endpoint(id, false),
        card_of(id) is Some && !names_a_card(id) ==> endpoint(id, true) is None,
        endpoint(id, false) is Some ==> endpoint(id, false)->0.card == card_of(id)->0,
        endpoint(id, false) is Some <==> card_of(id) is Some && hw_rank(before_colon(without_host(id))) is Some,
{
}

/// Two devices are one piece of hardware just where card and number agree: the
/// devices of one card are told apart, and so are cards.
pub proof fn hardware_goes_by_card_and_number(a: Seq<char>, b: Seq<char>, named: bool)
    requires
        endpoint(a, named) is Some,
        endpoint(b, named) is Some,
    ensures
        endpoint(a, named)->0.card == endpoint(b, named)->0.card && endpoint(a, named)->0.dev == endpoint(
            b,
            named,
        )->0.dev <==> same_hardware(a, b, named),
{
}

/// Every piece of hardware that is advertised is offered: by a device of its card and
/// number that is no worse a view of it.
pub proof fn every_piece_of_hardware_is_offered(devs: Seq<AudioDevice>, i: int)
    requires
        0 <= i < devs.len(),
        endpoint(devs[i].id@, cards_are_named(devs)) is Some,
    ensures
        exists|k: int|
            0 <= k < winnowed(devs).len() && {
                let e = endpoint((#[trigger] winnowed(devs)[k]).id@, cards_are_named(devs));
                let d = endpoint(devs[i].id@, cards_are_named(devs));
                e is Some && e->0.card == d->0.card && e->0.dev == d->0.dev && e->0.rank <= d->0.rank
            },
{
    let named = cards_are_named(devs);
    let p = |d: AudioDevice| is_route_id(d.id@);
    hardware_is_offered_by_its_best_view(devs, named, i);
    let k = choose|k: int| #[trigger] offers(best_views(devs, named), k, devs[i].id@, named);
    let n = devs.filter(p).len();
    assert(winnowed(devs)[n + k] == best_views(devs, named)[k]);
}

/// Of views that are as good, the one that was advertised first is offered: whatever
/// was advertised of the same hardware before the one on offer is a worse view of it.
pub proof fn the_first_of_the_best_views_is_offered(devs: Seq<AudioDevice>, named: bool, k: int)
    requires
        0 <= k < best_views(devs, named).len(),
    ensures
        exists|j: int|
            0 <= j < devs.len() && #[trigger] devs[j] == best_views(devs, named)[k] && forall|i: int|
                0 <= i < j && same_hardware((#[trigger] devs[i]).id@, devs[j].id@, named) ==> endpoint(
                    devs[i].id@,
                    named,
                )->0.rank > endpoint(devs[j].id@, named)->0.rank,
    decreases devs.len(),
{
    let less = devs.drop_last();
    let front = best_views(less, named);
    let all = best_views(devs, named);
    let d = devs.last();
    let p = |b: AudioDevice| same_hardware(b.id@, d.id@, named);
    first_where_found(front, p);
    let at = first_where(front, p);
    assert(devs[devs.len() - 1] == d);
    if k < front.len() && all[k] == front[k] {
        the_first_of_the_best_views_is_offered(less, named, k);
        let j = choose|j: int|
            0 <= j < less.len() && #[trigger] less[j] == front[k] && forall|i: int|
                0 <= i < j && same_hardware((#[trigger] less[i]).id@, less[j].id@, named) ==> endpoint(
                    less[i].id@,
                    named,
                )->0.rank > endpoint(less[j].id@, named)->0.rank;
        assert(devs[j] == all[k]);
        assert forall|i: int|
            0 <= i < j && same_hardware((#[trigger] devs[i]).id@, devs[j].id@, named) implies endpoint(
            devs[i].id@,
            named,
        )->0.rank > endpoint(devs[j].id@, named)->0.rank by {
            assert(less[i] == devs[i] && less[j] == devs[j]);
        }
    } else {
        assert(all[k] == d);
        let j = devs.len() - 1;
        assert forall|i: int|
            0 <= i < j && same_hardware((#[trigger] devs[i]).id@, devs[j].id@, named) implies endpoint(
            devs[i].id@,
            named,
        )->0.rank > endpoint(devs[j].id@, named)->0.rank by {
            assert(less[i] == devs[i]);
            hardware_is_offered_by_its_best_view(less, named, i);
            let o = choose|o: int| #[trigger] offers(front, o, less[i].id@, named);
            assert(p(front[o]));
            if k < front.len() {
                assert(k == at);
                if o != at {
                    if o < at {
                        assert(!p(front[o]));
                    } else {
                        hardware_is_offered_once(less, named, at, o);
                    }
                }
            } else if o < at {
                assert(!p(front[o]));
            }
        }
        assert(devs[j] == all[k]);
    }
}

} // verus!
