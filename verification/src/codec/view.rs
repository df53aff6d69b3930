//! What an agent is shown each turn: rivals, optional values, sightings and
//! whole views.

use crate::codec::integers::{
    agrees, holds_at, lemma_holds_at_split, lemma_u32_roundtrip, lemma_u64_roundtrip, parse_u32,
    parse_u64, read_u32, read_u64, u32_bytes, u64_bytes, write_u32, write_u64,
};
use crate::codec::terms::{
    lemma_object_roundtrip, lemma_offset_roundtrip, lemma_tile_roundtrip, object_bytes,
    offset_bytes, parse_object, parse_offset, parse_tile, read_object, read_offset, read_tile,
    tile_bytes, write_object, write_offset, write_tile,
};
use crate::codec::text::{
    lemma_string_roundtrip, parse_string, read_string, string_bytes, text_fits, write_string,
};
use crate::world::{
    sighting_view, sightings_view, Enemy, EnemyView, Object, Sighting, SightingView,
};
use vstd::prelude::*;

verus! {

/// Whether both names of a rival are short enough to be written down.
pub open spec fn enemy_fits(enemy: EnemyView) -> bool {
    text_fits(enemy.name) && text_fits(enemy.team_name)
}

/// The bytes that stand for a rival.
pub open spec fn enemy_bytes(enemy: EnemyView) -> Seq<u8> {
    string_bytes(enemy.name) + string_bytes(enemy.team_name) + u32_bytes(enemy.score)
}

/// Reads a rival at `at`: the value and the position behind it, or
/// `None` where the bytes there do not spell one.
pub open spec fn parse_enemy(bytes: Seq<u8>, at: int) -> Option<(EnemyView, int)> {
    match parse_string(bytes, at) {
        Some((name, second)) => match parse_string(bytes, second) {
            Some((team_name, third)) => match parse_u32(bytes, third) {
                Some((score, next)) => Some((EnemyView { name, team_name, score }, next)),
                None => None,
            },
            None => None,
        },
        None => None,
    }
}

/// Reading a rival from where its encoding stands gives it back, and
/// ends right behind the encoding.
pub proof fn lemma_enemy_roundtrip(bytes: Seq<u8>, at: int, enemy: EnemyView)
    requires
        enemy_fits(enemy),
        holds_at(bytes, at, enemy_bytes(enemy)),
    ensures
        parse_enemy(bytes, at) == Some((enemy, at + enemy_bytes(enemy).len())),
{
    let names = string_bytes(enemy.name) + string_bytes(enemy.team_name);
    lemma_holds_at_split(bytes, at, names, u32_bytes(enemy.score));
    lemma_holds_at_split(bytes, at, string_bytes(enemy.name), string_bytes(enemy.team_name));
    lemma_string_roundtrip(bytes, at, enemy.name);
    lemma_string_roundtrip(bytes, at + string_bytes(enemy.name).len(), enemy.team_name);
    lemma_u32_roundtrip(bytes, at + names.len(), enemy.score);
}

/// Appends the encoding of a rival.
pub fn write_enemy(out: &mut Vec<u8>, enemy: &Enemy)
    ensures
        final(out)@ == old(out)@ + enemy_bytes(enemy@),
        enemy_fits(enemy@),
{
    write_string(out, enemy.name.as_str());
    write_string(out, enemy.team_name.as_str());
    write_u32(out, enemy.score);
    assert(out@ =~= old(out)@ + enemy_bytes(enemy@));
}

/// Reads a rival at `at`, and says where the next value starts.
pub fn read_enemy(bytes: &[u8], at: usize) -> (read: Option<(Enemy, usize)>)
    ensures
        match read {
            Some((enemy, next)) => parse_enemy(bytes@, at as int) == Some((enemy@, next as int)),
            None => parse_enemy(bytes@, at as int) is None,
        },
{
    match read_string(bytes, at) {
        Some((name, second)) => match read_string(bytes, second) {
            Some((team_name, third)) => match read_u32(bytes, third) {
                Some((score, next)) => Some((Enemy { name, team_name, score }, next)),
                None => None,
            },
            None => None,
        },
        None => None,
    }
}

/// The bytes that stand for an object that may or may not be there.
pub open spec fn optional_object_bytes(object: Option<Object>) -> Seq<u8> {
    match object {
        None => seq![0u8],
        Some(object) => seq![1u8] + object_bytes(object),
    }
}

/// Reads an object that may or may not be there at `at`: the value and the position behind it, or
/// `None` where the bytes there do not spell one.
pub open spec fn parse_optional_object(bytes: Seq<u8>, at: int) -> Option<(Option<Object>, int)> {
    if 0 <= at < bytes.len() {
        if bytes[at] == 0 {
            Some((None, at + 1))
        } else if bytes[at] == 1 {
            match parse_object(bytes, at + 1) {
                Some((object, next)) => Some((Some(object), next)),
                None => None,
            }
        } else {
            None
        }
    } else {
        None
    }
}

/// Reading an object that may or may not be there from where its encoding stands gives it back, and
/// ends right behind the encoding.
pub proof fn lemma_optional_object_roundtrip(bytes: Seq<u8>, at: int, object: Option<Object>)
    requires
        holds_at(bytes, at, optional_object_bytes(object)),
    ensures
        parse_optional_object(bytes, at) == Some(
            (object, at + optional_object_bytes(object).len()),
        ),
{
    let encoding = optional_object_bytes(object);
    assert(bytes[at] == bytes.subrange(at, at + encoding.len())[0]);
    match object {
        None => {},
        Some(inner) => {
            lemma_holds_at_split(bytes, at, seq![1u8], object_bytes(inner));
            lemma_object_roundtrip(bytes, at + 1, inner);
        },
    }
}

/// Appends the encoding of an object that may or may not be there.
pub fn write_optional_object(out: &mut Vec<u8>, object: Option<Object>)
    ensures
        final(out)@ == old(out)@ + optional_object_bytes(object),
{
    match object {
        None => {
            out.push(0);
        },
        Some(inner) => {
            out.push(1);
            write_object(out, inner);
        },
    }
    assert(out@ =~= old(out)@ + optional_object_bytes(object));
}

/// Reads an object that may or may not be there at `at`, and says where the next value starts.
pub fn read_optional_object(bytes: &[u8], at: usize) -> (read: Option<(Option<Object>, usize)>)
    ensures
        agrees(read, parse_optional_object(bytes@, at as int)),
{
    if at >= bytes.len() {
        return None;
    }
    let flag = bytes[at];
    if flag == 0 {
        Some((None, at + 1))
    } else if flag == 1 {
        match read_object(bytes, at + 1) {
            Some((object, next)) => Some((Some(object), next)),
            None => None,
        }
    } else {
        None
    }
}

/// The bytes that stand for a rival that may or may not be there.
pub open spec fn optional_enemy_bytes(enemy: Option<EnemyView>) -> Seq<u8> {
    match enemy {
        None => seq![0u8],
        Some(enemy) => seq![1u8] + enemy_bytes(enemy),
    }
}

/// Reads a rival that may or may not be there at `at`: the value and the position behind it, or
/// `None` where the bytes there do not spell one.
pub open spec fn parse_optional_enemy(bytes: Seq<u8>, at: int) -> Option<
    (Option<EnemyView>, int),
> {
    if 0 <= at < bytes.len() {
        if bytes[at] == 0 {
            Some((None, at + 1))
        } else if bytes[at] == 1 {
            match parse_enemy(bytes, at + 1) {
                Some((enemy, next)) => Some((Some(enemy), next)),
                None => None,
            }
        } else {
            None
        }
    } else {
        None
    }
}

/// Reading a rival that may or may not be there from where its encoding stands gives it back, and
/// ends right behind the encoding.
pub proof fn lemma_optional_enemy_roundtrip(bytes: Seq<u8>, at: int, enemy: Option<EnemyView>)
    requires
        enemy matches Some(inner) ==> enemy_fits(inner),
        holds_at(bytes, at, optional_enemy_bytes(enemy)),
    ensures
        parse_optional_enemy(bytes, at) == Some((enemy, at + optional_enemy_bytes(enemy).len())),
{
    let encoding = optional_enemy_bytes(enemy);
    assert(bytes[at] == bytes.subrange(at, at + encoding.len())[0]);
    match enemy {
        None => {},
        Some(inner) => {
            lemma_holds_at_split(bytes, at, seq![1u8], enemy_bytes(inner));
            lemma_enemy_roundtrip(bytes, at + 1, inner);
        },
    }
}

/// The mathematical value of a rival that may or may not be there.
pub open spec fn optional_enemy_view(enemy: Option<Enemy>) -> Option<EnemyView> {
    match enemy {
        Some(enemy) => Some(enemy@),
        None => None,
    }
}

/// Appends the encoding of a rival that may or may not be there.
pub fn write_optional_enemy(out: &mut Vec<u8>, enemy: &Option<Enemy>)
    ensures
        final(out)@ == old(out)@ + optional_enemy_bytes(optional_enemy_view(*enemy)),
        optional_enemy_view(*enemy) matches Some(inner) ==> enemy_fits(inner),
{
    match enemy {
        None => {
            out.push(0);
        },
        Some(inner) => {
            out.push(1);
            write_enemy(out, inner);
        },
    }
    assert(out@ =~= old(out)@ + optional_enemy_bytes(optional_enemy_view(*enemy)));
}

/// Reads a rival that may or may not be there at `at`, and says where the next value starts.
pub fn read_optional_enemy(bytes: &[u8], at: usize) -> (read: Option<(Option<Enemy>, usize)>)
    ensures
        match read {
            Some((enemy, next)) => parse_optional_enemy(bytes@, at as int) == Some(
                (optional_enemy_view(enemy), next as int),
            ),
            None => parse_optional_enemy(bytes@, at as int) is None,
        },
{
    if at >= bytes.len() {
        return None;
    }
    let flag = bytes[at];
    if flag == 0 {
        Some((None, at + 1))
    } else if flag == 1 {
        match read_enemy(bytes, at + 1) {
            Some((enemy, next)) => Some((Some(enemy), next)),
            None => None,
        }
    } else {
        None
    }
}

/// Whether every name in a sighting is short enough to be written down.
pub open spec fn sighting_fits(sighting: SightingView) -> bool {
    sighting.2 matches Some(enemy) ==> enemy_fits(enemy)
}

/// The bytes that stand for a sighting.
#[verifier::opaque]
pub open spec fn sighting_bytes(sighting: SightingView) -> Seq<u8> {
    tile_bytes(sighting.0) + optional_object_bytes(sighting.1) + optional_enemy_bytes(sighting.2)
        + offset_bytes(sighting.3)
}

/// Reads a sighting at `at`: the value and the position behind it, or
/// `None` where the bytes there do not spell one.
#[verifier::opaque]
pub open spec fn parse_sighting(bytes: Seq<u8>, at: int) -> Option<(SightingView, int)> {
    match parse_tile(bytes, at) {
        Some((tile, second)) => match parse_optional_object(bytes, second) {
            Some((object, third)) => match parse_optional_enemy(bytes, third) {
                Some((enemy, fourth)) => match parse_offset(bytes, fourth) {
                    Some((offset, next)) => Some(((tile, object, enemy, offset), next)),
                    None => None,
                },
                None => None,
            },
            None => None,
        },
        None => None,
    }
}

/// Reading a sighting from where its encoding stands gives it back, and
/// ends right behind the encoding.
pub proof fn lemma_sighting_roundtrip(bytes: Seq<u8>, at: int, sighting: SightingView)
    requires
        sighting_fits(sighting),
        holds_at(bytes, at, sighting_bytes(sighting)),
    ensures
        parse_sighting(bytes, at) == Some((sighting, at + sighting_bytes(sighting).len())),
{
    reveal(sighting_bytes);
    reveal(parse_sighting);
    let first = tile_bytes(sighting.0);
    let second = optional_object_bytes(sighting.1);
    let third = optional_enemy_bytes(sighting.2);
    let fourth = offset_bytes(sighting.3);
    lemma_holds_at_split(bytes, at, first + second + third, fourth);
    lemma_holds_at_split(bytes, at, first + second, third);
    lemma_holds_at_split(bytes, at, first, second);
    lemma_tile_roundtrip(bytes, at, sighting.0);
    lemma_optional_object_roundtrip(bytes, at + first.len(), sighting.1);
    lemma_optional_enemy_roundtrip(bytes, at + first.len() + second.len(), sighting.2);
    lemma_offset_roundtrip(bytes, at + first.len() + second.len() + third.len(), sighting.3);
}

/// Appends the encoding of a sighting.
pub fn write_sighting(out: &mut Vec<u8>, sighting: &Sighting)
    ensures
        final(out)@ == old(out)@ + sighting_bytes(sighting_view(*sighting)),
        sighting_fits(sighting_view(*sighting)),
{
    write_tile(out, sighting.0);
    write_optional_object(out, sighting.1);
    write_optional_enemy(out, &sighting.2);
    write_offset(out, sighting.3);
    proof {
        reveal(sighting_bytes);
    }
    assert(out@ =~= old(out)@ + sighting_bytes(sighting_view(*sighting)));
}

/// Reads a sighting at `at`, and says where the next value starts.
pub fn read_sighting(bytes: &[u8], at: usize) -> (read: Option<(Sighting, usize)>)
    ensures
        match read {
            Some((sighting, next)) => parse_sighting(bytes@, at as int) == Some(
                (sighting_view(sighting), next as int),
            ),
            None => parse_sighting(bytes@, at as int) is None,
        },
{
    proof {
        reveal(parse_sighting);
    }
    match read_tile(bytes, at) {
        Some((tile, second)) => match read_optional_object(bytes, second) {
            Some((object, third)) => match read_optional_enemy(bytes, third) {
                Some((enemy, fourth)) => match read_offset(bytes, fourth) {
                    Some((offset, next)) => Some(((tile, object, enemy, offset), next)),
                    None => None,
                },
                None => None,
            },
            None => None,
        },
        None => None,
    }
}

/// Whether every sighting of a view can be written down.
pub open spec fn sightings_fit(sightings: Seq<SightingView>) -> bool {
    forall|i: int| 0 <= i < sightings.len() ==> sighting_fits(#[trigger] sightings[i])
}

/// The sightings one after the other, without a count in front.
pub open spec fn sighting_run_bytes(sightings: Seq<SightingView>) -> Seq<u8>
    decreases sightings.len(),
{
    if sightings.len() == 0 {
        Seq::empty()
    } else {
        sighting_bytes(sightings[0]) + sighting_run_bytes(sightings.drop_first())
    }
}

/// Reads `count` sightings one after the other.
pub open spec fn parse_sighting_run(bytes: Seq<u8>, at: int, count: nat) -> Option<
    (Seq<SightingView>, int),
>
    decreases count,
{
    if count == 0 {
        Some((Seq::empty(), at))
    } else {
        match parse_sighting(bytes, at) {
            Some((head, middle)) => match parse_sighting_run(bytes, middle, (count - 1) as nat) {
                Some((tail, next)) => Some((seq![head] + tail, next)),
                None => None,
            },
            None => None,
        }
    }
}

/// The bytes that stand for a view.
pub open spec fn sightings_bytes(sightings: Seq<SightingView>) -> Seq<u8> {
    u64_bytes(sightings.len() as u64) + sighting_run_bytes(sightings)
}

/// Reads a view at `at`: the value and the position behind it, or
/// `None` where the bytes there do not spell one.
pub open spec fn parse_sightings(bytes: Seq<u8>, at: int) -> Option<(Seq<SightingView>, int)> {
    match parse_u64(bytes, at) {
        Some((count, body)) => parse_sighting_run(bytes, body, count as nat),
        None => None,
    }
}

/// Reading a run of sightings from where its encoding stands gives it back, and
/// ends right behind the encoding.
pub proof fn lemma_sighting_run_roundtrip(bytes: Seq<u8>, at: int, sightings: Seq<SightingView>)
    requires
        sightings_fit(sightings),
        holds_at(bytes, at, sighting_run_bytes(sightings)),
    ensures
        parse_sighting_run(bytes, at, sightings.len()) == Some(
            (sightings, at + sighting_run_bytes(sightings).len()),
        ),
    decreases sightings.len(),
{
    if sightings.len() == 0 {
        assert(sightings =~= Seq::empty());
    } else {
        let head = sightings[0];
        let tail = sightings.drop_first();
        lemma_holds_at_split(bytes, at, sighting_bytes(head), sighting_run_bytes(tail));
        lemma_sighting_roundtrip(bytes, at, head);
        assert forall|i: int| 0 <= i < tail.len() implies sighting_fits(#[trigger] tail[i]) by {
            assert(tail[i] == sightings[i + 1]);
        }
        lemma_sighting_run_roundtrip(bytes, at + sighting_bytes(head).len(), tail);
        assert(seq![head] + tail =~= sightings);
    }
}

/// Reading a view from where its encoding stands gives it back, and
/// ends right behind the encoding.
pub proof fn lemma_sightings_roundtrip(bytes: Seq<u8>, at: int, sightings: Seq<SightingView>)
    requires
        sightings.len() <= u64::MAX,
        sightings_fit(sightings),
        holds_at(bytes, at, sightings_bytes(sightings)),
    ensures
        parse_sightings(bytes, at) == Some((sightings, at + sightings_bytes(sightings).len())),
{
    lemma_holds_at_split(
        bytes,
        at,
        u64_bytes(sightings.len() as u64),
        sighting_run_bytes(sightings),
    );
    lemma_u64_roundtrip(bytes, at, sightings.len() as u64);
    lemma_sighting_run_roundtrip(bytes, at + 8, sightings);
}

/// Writing one more sighting behind a run gives the run that is one longer.
pub proof fn lemma_sighting_run_push(sightings: Seq<SightingView>, last: SightingView)
    ensures
        sighting_run_bytes(sightings.push(last)) == sighting_run_bytes(sightings) + sighting_bytes(
            last,
        ),
    decreases sightings.len(),
{
    let longer = sightings.push(last);
    if sightings.len() == 0 {
        assert(longer.drop_first() =~= Seq::empty());
        assert(sighting_run_bytes(longer.drop_first()) =~= Seq::empty());
        assert(sighting_run_bytes(longer) =~= sighting_bytes(last));
        assert(sighting_run_bytes(sightings) + sighting_bytes(last) =~= sighting_bytes(last));
    } else {
        lemma_sighting_run_push(sightings.drop_first(), last);
        assert(longer.drop_first() =~= sightings.drop_first().push(last));
        assert(sighting_run_bytes(longer) =~= sighting_run_bytes(sightings) + sighting_bytes(
            last,
        ));
    }
}

/// Reading a run to its end and one more sighting reads the run that is one
/// longer.
pub proof fn lemma_parse_sighting_run_extend(bytes: Seq<u8>, at: int, count: nat)
    ensures
        parse_sighting_run(bytes, at, count + 1) == match parse_sighting_run(bytes, at, count) {
            Some((front, middle)) => match parse_sighting(bytes, middle) {
                Some((last, next)) => Some((front.push(last), next)),
                None => None,
            },
            None => None,
        },
    decreases count,
{
    reveal_with_fuel(parse_sighting_run, 2);
    if count == 0 {
        match parse_sighting(bytes, at) {
            Some((last, next)) => {
                assert(seq![last] + Seq::<SightingView>::empty() =~= Seq::<
                    SightingView,
                >::empty().push(last));
            },
            None => {},
        }
    } else {
        match parse_sighting(bytes, at) {
            Some((head, middle)) => {
                lemma_parse_sighting_run_extend(bytes, middle, (count - 1) as nat);
                match parse_sighting_run(bytes, middle, (count - 1) as nat) {
                    Some((tail, end)) => {
                        match parse_sighting(bytes, end) {
                            Some((last, next)) => {
                                assert(seq![head] + tail.push(last) =~= (seq![head] + tail).push(
                                    last,
                                ));
                            },
                            None => {},
                        }
                    },
                    None => {},
                }
            },
            None => {},
        }
    }
}

/// Appends the encoding of a view.
pub fn write_sightings(out: &mut Vec<u8>, sightings: &Vec<Sighting>)
    ensures
        final(out)@ == old(out)@ + sightings_bytes(sightings_view(sightings@)),
        sightings_fit(sightings_view(sightings@)),
{
    write_u64(out, sightings.len() as u64);
    let ghost start = out@;
    let ghost views = sightings_view(sightings@);
    let mut i: usize = 0;
    while i < sightings.len()
        invariant
            i <= sightings@.len(),
            views == sightings_view(sightings@),
            out@ == start + sighting_run_bytes(views.take(i as int)),
            forall|j: int| 0 <= j < i ==> sighting_fits(#[trigger] views[j]),
        decreases sightings@.len() - i,
    {
        write_sighting(out, &sightings[i]);
        proof {
            lemma_sighting_run_push(views.take(i as int), views[i as int]);
            assert(views.take(i as int).push(views[i as int]) =~= views.take(i + 1));
        }
        i = i + 1;
    }
    assert(views.take(i as int) =~= views);
    assert(out@ =~= old(out)@ + sightings_bytes(views));
}

/// Reads a view at `at`, and says where the next value starts.
pub fn read_sightings(bytes: &[u8], at: usize) -> (read: Option<(Vec<Sighting>, usize)>)
    ensures
        match read {
            Some((sightings, next)) => parse_sightings(bytes@, at as int) == Some(
                (sightings_view(sightings@), next as int),
            ),
            None => parse_sightings(bytes@, at as int) is None,
        },
{
    let (count, body) = match read_u64(bytes, at) {
        Some(header) => header,
        None => {
            return None;
        },
    };
    let mut sightings: Vec<Sighting> = Vec::new();
    let mut position: usize = body;
    let mut i: u64 = 0;
    assert(sightings_view(sightings@) =~= Seq::empty());
    while i < count
        invariant
            i <= count,
            parse_u64(bytes@, at as int) == Some((count, body as int)),
            parse_sighting_run(bytes@, body as int, i as nat) == Some(
                (sightings_view(sightings@), position as int),
            ),
        decreases count - i,
    {
        proof {
            lemma_parse_sighting_run_extend(bytes@, body as int, i as nat);
        }
        match read_sighting(bytes, position) {
            Some((sighting, next)) => {
                let ghost before = sightings_view(sightings@);
                sightings.push(sighting);
                assert(sightings_view(sightings@) =~= before.push(sighting_view(sighting)));
                position = next;
            },
            None => {
                proof {
                    lemma_parse_sighting_run_fails_on(bytes@, body as int, (i + 1) as nat, count as nat);
                }
                return None;
            },
        }
        i = i + 1;
    }
    Some((sightings, position))
}

/// Once a run cannot be read, no longer run can be read from the same place.
pub proof fn lemma_parse_sighting_run_fails_on(bytes: Seq<u8>, at: int, short: nat, long: nat)
    requires
        short <= long,
        parse_sighting_run(bytes, at, short) is None,
    ensures
        parse_sighting_run(bytes, at, long) is None,
    decreases long - short,
{
    if short < long {
        lemma_parse_sighting_run_extend(bytes, at, short);
        lemma_parse_sighting_run_fails_on(bytes, at, short + 1, long);
    }
}

} // verus!
