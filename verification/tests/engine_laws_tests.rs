#![allow(unused_imports)]

use rust_ccg::base::action::{Action, ActionRecord};
use rust_ccg::base::config::{TemplateId, ZoneId};
use rust_ccg::base::entity::EntityId;
use rust_ccg::base::player::{PlayerId, PlayerMap};
use rust_ccg::base::rng::{GameRng, GameRngState};
use rust_ccg::base::state::GameState;
use rust_ccg::cards::definition::{CardDefinition, CardId, CardTypeId};
use rust_ccg::cards::instance::CardInstance;
use rust_ccg::effects::effect::{Effect, EffectBatch};
use rust_ccg::games::simple::SimpleGameBuilder;
use rust_ccg::rules::engine::{GameResult, RulesEngine};
use rust_ccg::effects::resolver::{EffectResolver, ResolveResult, SharedZones, ZoneFns};
use rust_ccg::stack::immediate::ImmediateResolution;
use rust_ccg::stack::priority::PriorityStack;
use rust_ccg::stack::{ResolutionStatus, ResolutionSystem};
use rust_ccg::training::trajectory::{sample_indices, ExperienceBuffer, Recorded, Trajectory};
use rust_ccg::triggers::event::{EventTypeId, GameEvent};
use rust_ccg::triggers::registry::{Trigger, TriggerId, TriggerRegistry, TriggerTiming};
use rust_ccg::zones::manager::{ZoneManager, ZonePosition};

fn failed_with(result: &ResolveResult, reason: &str) -> bool {
    match result {
        ResolveResult::Failed(text) => text == reason,
        _ => false,
    }
}

fn zone_state() -> (GameState, ZoneId, ZoneId) {
    let mut state = GameState::new(2, 7);
    let deck = ZoneId::new(0);
    let hand = ZoneId::new(1);
    state.zones.init_ordered_zone(deck);
    for index in 0..3u32 {
        let entity = state.alloc_entity();
        state.add_card(CardInstance::new(entity, CardId::new(index + 1), PlayerId::new(0), deck));
    }
    (state, deck, hand)
}

#[test]
fn hand_size_follows_the_hand() {
    let mut state = GameState::new(3, 1);
    let player = PlayerId::new(2);
    state.set_deck(player, vec![CardId::new(1), CardId::new(2), CardId::new(3)]);
    for _ in 0..3 {
        state.draw_card(player);
        assert_eq!(state.public.hand_sizes[player] as usize, state.hand(player).len());
    }
    assert_eq!(state.draw_card(player), None);
    assert_eq!(state.public.hand_sizes[player], 3);
    assert!(state.remove_from_hand(player, CardId::new(2)));
    assert_eq!(state.hand(player), &[CardId::new(3), CardId::new(1)]);
    assert_eq!(state.public.hand_sizes[player], 2);
    state.add_to_hand(player, CardId::new(9));
    assert_eq!(state.public.hand_sizes[player] as usize, state.hand(player).len());
    for other in [PlayerId::new(0), PlayerId::new(1)] {
        assert_eq!(state.public.hand_sizes[other], 0);
        assert!(state.hand(other).is_empty());
    }
}

#[test]
fn remove_from_hand_takes_the_first_occurrence() {
    let mut state = GameState::new(2, 1);
    let player = PlayerId::new(0);
    for card in [5, 7, 5, 8] {
        state.add_to_hand(player, CardId::new(card));
    }
    assert!(state.remove_from_hand(player, CardId::new(5)));
    assert_eq!(state.hand(player), &[CardId::new(7), CardId::new(5), CardId::new(8)]);
}

#[test]
fn card_instances_name_their_zone() {
    let (mut state, deck, hand) = zone_state();
    let context = SharedZones::new(deck, hand);
    let discard = ZoneId::new(2);
    state.zones.init_ordered_zone(discard);
    let first = EntityId(2);
    let result = EffectResolver::resolve_single(&mut state, &Effect::move_to(discard), first, &context);
    assert!(matches!(result, ResolveResult::Success));
    let result = EffectResolver::resolve_single(&mut state, &Effect::draw(2), EntityId(0), &context);
    assert!(matches!(result, ResolveResult::Success));
    for entity in [EntityId(2), EntityId(3), EntityId(4)] {
        let card = state.get_card(entity).unwrap();
        assert_eq!(Some(card.zone), state.zones.get_zone(entity));
    }
    assert_eq!(state.zones.get_zone(first), Some(discard));
    assert_eq!(state.zones.cards_in_zone_ordered(discard), &[first]);
    assert_eq!(state.zones.cards_in_zone_ordered(deck), &[] as &[EntityId]);
}

#[test]
fn the_same_seed_gives_the_same_draws() {
    let mut first = GameRng::new(99);
    let mut second = GameRng::new(99);
    for _ in 0..50 {
        assert_eq!(first.gen_range(-5..500), second.gen_range(-5..500));
        assert_eq!(first.gen_range_usize(0..17), second.gen_range_usize(0..17));
    }
}

#[test]
fn a_restored_generator_goes_on_as_the_stored_one() {
    let mut rng = GameRng::new(5);
    for _ in 0..33 {
        rng.gen_range(0..10);
    }
    let _ = rng.fork();
    let stored = rng.state();
    assert_eq!(stored.seed, 5);
    assert_eq!(stored.fork_counter, 1);
    assert!(stored.word_pos > 0);
    let mut restored = GameRng::from_state(&stored);
    assert_eq!(restored.state(), stored);
    for _ in 0..20 {
        assert_eq!(rng.gen_range(0..1000), restored.gen_range(0..1000));
    }
    assert_eq!(rng.state(), restored.state());
}

#[test]
fn a_restored_generator_shuffles_and_chooses_as_the_stored_one() {
    let mut rng = GameRng::new(77);
    for _ in 0..5 {
        rng.gen_range(0..3);
    }
    let mut restored = GameRng::from_state(&rng.state());
    let mut first: Vec<u32> = (0..40).collect();
    let mut second: Vec<u32> = (0..40).collect();
    rng.shuffle(&mut first);
    restored.shuffle(&mut second);
    assert_eq!(first, second);
    assert_ne!(first, (0..40).collect::<Vec<u32>>());
    let items = vec![10, 20, 30, 40, 50, 60, 70];
    for _ in 0..20 {
        assert_eq!(rng.choose_one(&items), restored.choose_one(&items));
    }
    assert_eq!(rng.state(), restored.state());
}

#[test]
fn removing_the_triggers_of_a_source_keeps_the_order_of_the_rest() {
    let mut registry = TriggerRegistry::new();
    let source = EntityId(10);
    let other = EntityId(11);
    let damage = EventTypeId::new(1);
    let mut kept = Vec::new();
    for id in 1..=8u32 {
        let owner = if id % 3 == 0 { source } else { other };
        let trigger = Trigger::new(TriggerId::new(id), "t", damage).with_source(owner);
        let id = registry.register(trigger);
        if owner == other {
            kept.push(id);
        }
    }
    registry.remove_for_source(source);
    assert_eq!(registry.len(), kept.len());
    let state = GameState::new(2, 1);
    let fired = registry.find_triggers(&GameEvent::new(damage), &state, TriggerTiming::After, None);
    let ids: Vec<TriggerId> = fired.iter().map(|triggered| triggered.trigger_id).collect();
    assert_eq!(ids, kept);
}

#[test]
fn a_fresh_generator_is_at_the_start_of_its_stream() {
    let rng = GameRng::new(12);
    assert_eq!(rng.state(), GameRngState { seed: 12, word_pos: 0, fork_counter: 0 });
}

#[test]
fn a_cloned_generator_draws_the_same() {
    let mut rng = GameRng::new(8);
    rng.gen_range(0..100);
    let mut copy = rng.clone();
    for _ in 0..10 {
        assert_eq!(rng.gen_range(0..100), copy.gen_range(0..100));
    }
}

#[test]
fn the_seed_of_a_fork_is_made_of_seed_and_counter() {
    let stride: u64 = 0x9E37_79B9_7F4A_7C15;
    let mut rng = GameRng::new(42);
    let first = rng.fork();
    let second = rng.fork();
    assert_eq!(first.seed(), 42u64.wrapping_add(stride));
    assert_eq!(second.seed(), 42u64.wrapping_add(stride.wrapping_mul(2)));
    assert_eq!(first.fork_counter(), 0);
    assert_eq!(rng.fork_counter(), 2);
    assert_eq!(rng.seed(), 42);
    let mut again = GameRng::new(42);
    assert_eq!(again.fork().seed(), first.seed());
    assert_eq!(again.fork().seed(), second.seed());
}

#[test]
fn shuffle_keeps_the_items() {
    let mut rng = GameRng::new(3);
    let mut items: Vec<u32> = (0..40).collect();
    rng.shuffle(&mut items);
    let mut sorted = items.clone();
    sorted.sort();
    assert_eq!(sorted, (0..40).collect::<Vec<u32>>());
    assert_ne!(items, sorted);
    let nothing: Vec<u32> = Vec::new();
    assert_eq!(rng.choose_one(&nothing), None);
    assert!(items.contains(rng.choose_one(&items).unwrap()));
}

#[test]
fn removing_the_triggers_of_a_source_leaves_none_listed() {
    let mut registry = TriggerRegistry::new();
    let source = EntityId(10);
    let other = EntityId(11);
    let damage = EventTypeId::new(1);
    let draw = EventTypeId::new(2);
    let a = registry.register(Trigger::new(TriggerId::new(1), "a", damage).with_source(source));
    let b = registry
        .register(Trigger::new(TriggerId::new(2), "b", damage).also_on(draw).with_source(source));
    let c = registry.register(Trigger::new(TriggerId::new(3), "c", draw).with_source(other));
    assert_eq!(registry.len(), 3);
    registry.remove_for_source(source);
    assert_eq!(registry.len(), 1);
    assert!(registry.get(a).is_none());
    assert!(registry.get(b).is_none());
    assert!(registry.get(c).is_some());
    assert!(registry.triggers_for_source(source).is_empty());
    let state = GameState::new(2, 1);
    let on_damage = registry.find_triggers(&GameEvent::new(damage), &state, TriggerTiming::After, None);
    assert!(on_damage.is_empty());
    let on_draw = registry.find_triggers(&GameEvent::new(draw), &state, TriggerTiming::After, None);
    assert_eq!(on_draw.len(), 1);
    assert_eq!(on_draw[0].trigger_id, c);
    assert_eq!(on_draw[0].source, Some(other));
}

#[test]
fn triggers_come_by_priority_and_then_by_identifier() {
    let mut registry = TriggerRegistry::new();
    let event_type = EventTypeId::new(4);
    registry.register(Trigger::new(TriggerId::new(5), "low", event_type).with_priority(-1));
    registry.register(Trigger::new(TriggerId::new(9), "high late", event_type).with_priority(7));
    registry.register(Trigger::new(TriggerId::new(3), "high early", event_type).with_priority(7));
    registry.register(Trigger::new(TriggerId::new(4), "middle", event_type));
    registry.register(
        Trigger::new(TriggerId::new(6), "before", event_type).with_timing(TriggerTiming::Before),
    );
    registry.register(Trigger::new(TriggerId::new(7), "spent", event_type).with_uses(0));
    let state = GameState::new(2, 1);
    let found = registry.find_triggers(&GameEvent::new(event_type), &state, TriggerTiming::After, None);
    let ids: Vec<u32> = found.iter().map(|t| t.trigger_id.0).collect();
    assert_eq!(ids, vec![3, 9, 4, 5]);
}

#[test]
fn adding_and_removing_an_entity_restores_the_zones() {
    let mut zones = ZoneManager::new();
    let deck = ZoneId::new(0);
    let hand = ZoneId::new(1);
    zones.init_ordered_zone(deck);
    zones.add_to_zone(EntityId(5), deck, None);
    zones.add_to_zone(EntityId(6), deck, None);
    zones.add_to_zone(EntityId(7), hand, None);
    for (zone, position) in [
        (deck, None),
        (deck, Some(ZonePosition::Bottom)),
        (deck, Some(ZonePosition::Index(1))),
        (deck, Some(ZonePosition::Index(100))),
        (hand, Some(ZonePosition::Top)),
    ] {
        zones.add_to_zone(EntityId(8), zone, position);
        assert!(zones.is_in_zone(EntityId(8), zone));
        assert_eq!(zones.remove(EntityId(8)), Some(zone));
        assert_eq!(zones.cards_in_zone_ordered(deck), &[EntityId(5), EntityId(6)]);
        assert_eq!(zones.cards_in_zone(hand), vec![EntityId(7)]);
        assert_eq!(zones.total_cards(), 3);
        assert!(!zones.contains(EntityId(8)));
    }
}

#[test]
fn positions_count_from_the_bottom_and_stop_at_the_top() {
    let mut zones = ZoneManager::new();
    let zone = ZoneId::new(3);
    zones.init_ordered_zone(zone);
    zones.add_to_zone(EntityId(1), zone, None);
    zones.add_to_zone(EntityId(2), zone, Some(ZonePosition::Top));
    zones.add_to_zone(EntityId(3), zone, Some(ZonePosition::Bottom));
    zones.add_to_zone(EntityId(4), zone, Some(ZonePosition::Index(1)));
    zones.add_to_zone(EntityId(5), zone, Some(ZonePosition::Index(99)));
    assert_eq!(
        zones.cards_in_zone_ordered(zone),
        &[EntityId(3), EntityId(4), EntityId(1), EntityId(2), EntityId(5)]
    );
    assert_eq!(zones.top_card(zone), Some(EntityId(5)));
    assert_eq!(zones.bottom_card(zone), Some(EntityId(3)));
    assert_eq!(zones.pop_bottom(zone), Some(EntityId(3)));
    assert_eq!(zones.pop_top(zone), Some(EntityId(5)));
    assert_eq!(zones.zone_size(zone), 3);
    assert_eq!(zones.get_zone(EntityId(3)), None);
    assert_eq!(zones.move_to_zone(EntityId(9), zone, None), None);
    assert_eq!(zones.move_to_zone(EntityId(4), zone, Some(ZonePosition::Top)), Some(zone));
    assert_eq!(zones.cards_in_zone_ordered(zone), &[EntityId(4), EntityId(1), EntityId(2)]);
}

#[test]
fn a_snapshot_is_a_game_of_its_own() {
    let (mut state, deck, hand) = zone_state();
    state.public.set_player_state(PlayerId::new(0), "life", 20);
    state.set_deck(PlayerId::new(1), vec![CardId::new(4), CardId::new(5)]);
    let before = state.rng.state();
    let mut snapshot = state.clone_state();
    assert_eq!(state.rng.fork_counter(), before.fork_counter + 1);
    assert_eq!(state.rng.seed(), before.seed);
    assert_eq!(snapshot.rng.fork_counter(), 0);
    assert_ne!(snapshot.rng.seed(), state.rng.seed());

    snapshot.public.set_player_state(PlayerId::new(0), "life", 1);
    snapshot.public.set_turn_state("spent", 3);
    snapshot.public.advance_turn();
    snapshot.draw_card(PlayerId::new(1));
    snapshot.zones.move_to_zone(EntityId(2), hand, None);
    snapshot.get_card_mut(EntityId(3)).unwrap().set_state("damage", 2);
    let own = snapshot.alloc_entity();

    assert_eq!(state.public.get_player_state(PlayerId::new(0), "life", 0), 20);
    assert_eq!(state.public.get_turn_state("spent", 0), 0);
    assert_eq!(state.public.turn_number, 1);
    assert_eq!(state.deck_size(PlayerId::new(1)), 2);
    assert_eq!(state.public.hand_sizes[PlayerId::new(1)], 0);
    assert_eq!(state.zones.get_zone(EntityId(2)), Some(deck));
    assert_eq!(state.get_card(EntityId(3)).unwrap().get_state("damage", 0), 0);
    assert_eq!(state.alloc_entity(), own);
}

#[test]
fn drawing_from_an_empty_deck_fails() {
    let mut state = GameState::new(2, 1);
    let deck = ZoneId::new(0);
    let hand = ZoneId::new(1);
    state.zones.init_ordered_zone(deck);
    let context = SharedZones::new(deck, hand);
    let result = EffectResolver::resolve_single(&mut state, &Effect::draw(2), EntityId(1), &context);
    assert!(failed_with(&result, "Deck was empty"));
    assert_eq!(state.public.hand_sizes[PlayerId::new(1)], 0);
    let result = EffectResolver::resolve_single(&mut state, &Effect::draw(0), EntityId(1), &context);
    assert!(failed_with(&result, "Deck was empty"));
}

#[test]
fn effects_on_the_wrong_kind_of_target_fail() {
    let (mut state, deck, hand) = zone_state();
    let context = SharedZones::new(deck, hand);
    let card = EntityId(2);
    let player = EntityId(0);
    let missing = EntityId(77);
    for effect in [Effect::damage(1), Effect::set_player("life", 3), Effect::draw(1)] {
        let result = EffectResolver::resolve_single(&mut state, &effect, card, &context);
        assert!(failed_with(&result, "Target is not a player"));
    }
    for effect in [Effect::move_to(hand), Effect::modify_card("x", 1), Effect::set_card("x", 1)] {
        let result = EffectResolver::resolve_single(&mut state, &effect, player, &context);
        assert!(failed_with(&result, "Target is a player, not a card"));
    }
    for effect in [Effect::modify_card("x", 1), Effect::set_card("x", 1)] {
        let result = EffectResolver::resolve_single(&mut state, &effect, missing, &context);
        assert!(failed_with(&result, "Card not found"));
    }
    let mut batch = EffectBatch::new();
    batch.add_zone(Effect::damage(1));
    batch.add_zone(Effect::SetTurnState { key: "phase".to_string(), value: 2 });
    batch.add(Effect::modify_card("x", 4), vec![card, missing]);
    let results = EffectResolver::resolve_batch(&mut state, &batch, &context);
    assert_eq!(results.len(), 4);
    assert!(failed_with(&results[0], "Effect requires a target"));
    assert!(matches!(results[1], ResolveResult::Success));
    assert!(matches!(results[2], ResolveResult::Success));
    assert!(failed_with(&results[3], "Card not found"));
    assert_eq!(state.public.get_turn_state("phase", 0), 2);
    assert_eq!(state.get_card(card).unwrap().get_state("x", 0), 4);
}

#[test]
fn a_batch_stops_at_its_first_failure() {
    let (mut state, deck, hand) = zone_state();
    let context = SharedZones::new(deck, hand);
    let effect = Effect::batch(vec![
        Effect::heal(2),
        Effect::move_to(hand),
        Effect::heal(100),
    ]);
    let result = EffectResolver::resolve_single(&mut state, &effect, EntityId(1), &context);
    assert!(failed_with(&result, "Target is a player, not a card"));
    assert_eq!(state.public.get_player_state(PlayerId::new(1), "life", 0), 2);
    let skipped = Effect::Conditional {
        condition_key: "never".to_string(),
        effect: Box::new(Effect::heal(5)),
    };
    let result = EffectResolver::resolve_single(&mut state, &skipped, EntityId(1), &context);
    assert!(matches!(result, ResolveResult::Skipped));
    assert_eq!(state.public.get_player_state(PlayerId::new(1), "life", 0), 2);
}

#[test]
fn values_wrap_around_at_the_ends() {
    let mut state = GameState::new(2, 1);
    let player = PlayerId::new(0);
    state.public.set_player_state(player, "life", i64::MAX);
    state.public.modify_player_state(player, "life", 1);
    assert_eq!(state.public.get_player_state(player, "life", 0), i64::MIN);
    let mut card = CardInstance::neutral(EntityId(9), CardId::new(1), ZoneId::new(0));
    card.set_state("x", i64::MIN);
    card.modify_state("x", -1);
    assert_eq!(card.get_state("x", 0), i64::MAX);
    card.set_flag("tapped", true);
    assert!(card.has_flag("tapped"));
    card.clear_state_keys(&["x", "nothing"]);
    assert_eq!(card.get_state("x", 5), 5);
    assert!(card.has_flag("tapped"));
    card.clear_state();
    assert!(!card.has_flag("tapped"));
}

#[test]
fn damage_resolves_at_once() {
    let mut state = GameState::new(2, 42);
    state.public.set_player_state(PlayerId::new(0), "life", 20);
    state.public.set_player_state(PlayerId::new(1), "life", 20);
    let mut system = ImmediateResolution::new();
    let mut batch = EffectBatch::new();
    batch.add_player(Effect::damage(5), PlayerId::new(1));
    system.queue_action(Action::new(TemplateId::new(0)), batch, PlayerId::new(0));
    assert_eq!(system.pending_count(), 1);
    assert_eq!(system.priority_player(), None);
    let context = SharedZones::new(ZoneId::new(0), ZoneId::new(1));
    assert_eq!(system.process(&mut state, &context), ResolutionStatus::Complete);
    assert!(system.is_complete());
    assert_eq!(state.public.get_player_state(PlayerId::new(1), "life", 0), 15);
    assert_eq!(state.public.get_player_state(PlayerId::new(0), "life", 0), 20);
}

#[test]
fn the_stack_resolves_last_in_first_out() {
    let mut state = GameState::new(2, 42);
    let context = SharedZones::new(ZoneId::new(0), ZoneId::new(1));
    let mut stack = PriorityStack::new(2);
    let mut first = EffectBatch::new();
    first.add_player(Effect::set_player("counter", 1), PlayerId::new(0));
    stack.queue_action(Action::new(TemplateId::new(0)), first, PlayerId::new(0));
    let mut second = EffectBatch::new();
    second.add_player(Effect::set_player("counter", 2), PlayerId::new(0));
    stack.respond(second, PlayerId::new(1), "answer".to_string());
    assert_eq!(stack.stack_size(), 2);
    assert_eq!(stack.priority_player(), Some(PlayerId::new(1)));
    assert_eq!(
        stack.process(&mut state, &context),
        ResolutionStatus::WaitingForPriority(PlayerId::new(1))
    );
    assert!(!stack.pass(PlayerId::new(1)));
    assert!(stack.pass(PlayerId::new(0)));
    assert_eq!(stack.process(&mut state, &context), ResolutionStatus::Processing);
    assert_eq!(state.public.get_player_state(PlayerId::new(0), "counter", 0), 2);
    assert_eq!(stack.priority_player(), Some(PlayerId::new(1)));
    assert!(!stack.pass(PlayerId::new(1)));
    assert!(stack.pass(PlayerId::new(0)));
    assert_eq!(stack.process(&mut state, &context), ResolutionStatus::Processing);
    assert_eq!(state.public.get_player_state(PlayerId::new(0), "counter", 0), 1);
    assert_eq!(stack.priority_player(), None);
    assert_eq!(stack.process(&mut state, &context), ResolutionStatus::Complete);
}

#[test]
fn priority_goes_round_in_player_order() {
    let mut stack = PriorityStack::new(4);
    let mut batch = EffectBatch::new();
    batch.add_player(Effect::heal(1), PlayerId::new(0));
    stack.queue_action(Action::new(TemplateId::new(0)), batch, PlayerId::new(0));
    assert!(!stack.pass(PlayerId::new(0)));
    assert_eq!(stack.priority_player(), Some(PlayerId::new(1)));
    assert!(!stack.pass(PlayerId::new(1)));
    assert_eq!(stack.priority_player(), Some(PlayerId::new(2)));
    assert!(!stack.pass(PlayerId::new(2)));
    assert_eq!(stack.priority_player(), Some(PlayerId::new(3)));
    assert!(stack.pass(PlayerId::new(3)));
}

#[test]
fn a_pass_by_the_wrong_player_changes_nothing() {
    let mut stack = PriorityStack::with_priority(3, PlayerId::new(2));
    let mut batch = EffectBatch::new();
    batch.add_zone(Effect::SetTurnState { key: "x".to_string(), value: 1 });
    stack.queue_action(Action::new(TemplateId::new(0)), batch, PlayerId::new(2));
    assert!(!stack.pass(PlayerId::new(0)));
    assert!(!stack.pass(PlayerId::new(1)));
    assert_eq!(stack.priority_player(), Some(PlayerId::new(2)));
    assert!(!stack.pass(PlayerId::new(2)));
    assert_eq!(stack.priority_player(), Some(PlayerId::new(0)));
}

#[test]
fn waiting_triggers_go_onto_the_stack_by_identifier() {
    let mut registry = TriggerRegistry::new();
    let event_type = EventTypeId::new(1);
    for (id, priority) in [(7u32, 0), (2, 5), (4, -3)] {
        registry.register(
            Trigger::new(TriggerId::new(id), "t", event_type)
                .with_priority(priority)
                .with_controller(PlayerId::new(1))
                .with_effect(Effect::heal(id as i64)),
        );
    }
    let state = GameState::new(2, 1);
    let fired = registry.find_triggers(&GameEvent::new(event_type), &state, TriggerTiming::After, None);
    let mut stack = PriorityStack::new(2);
    for triggered in fired {
        stack.queue_triggered(triggered);
    }
    assert_eq!(stack.pending_count(), 3);
    stack.flush_triggers();
    assert_eq!(stack.pending_count(), 0);
    let controllers: Vec<PlayerId> = stack.entries().iter().map(|e| e.controller).collect();
    assert_eq!(controllers, vec![PlayerId::new(1); 3]);
    let ids: Vec<u32> = stack.entries().iter().map(|e| e.id.0).collect();
    assert_eq!(ids, vec![0, 1, 2]);
    let healed: Vec<usize> = stack.entries().iter().map(|e| e.effects.len()).collect();
    assert_eq!(healed, vec![1, 1, 1]);
    let sources: Vec<String> = stack.entries().iter().map(|e| format!("{:?}", e.source)).collect();
    assert!(sources[0].contains("TriggerId(2)"));
    assert!(sources[1].contains("TriggerId(4)"));
    assert!(sources[2].contains("TriggerId(7)"));
}

#[test]
fn identifiers_read_as_text() {
    assert_eq!(EntityId(42).to_string(), "Entity(42)");
    assert_eq!(EntityId(0).to_string(), "Entity(0)");
    assert_eq!(PlayerId::new(255).to_string(), "Player 255");
    assert_eq!(ZoneId::new(65535).to_string(), "Zone(65535)");
    assert_eq!(TemplateId::new(10).to_string(), "Template(10)");
    assert_eq!(CardId::new(4_294_967_295).to_string(), "Card(4294967295)");
    assert_eq!(EventTypeId::new(7).to_string(), "EventType(7)");
    assert_eq!(TriggerId::new(100).to_string(), "Trigger(100)");
}

#[test]
fn player_identifiers_are_cut_to_eight_bits() {
    assert_eq!(PlayerId::all(0), Vec::<PlayerId>::new());
    assert_eq!(PlayerId::all(256), Vec::<PlayerId>::new());
    assert_eq!(PlayerId::all(258), vec![PlayerId::new(0), PlayerId::new(1)]);
    assert_eq!(PlayerId::all(255).len(), 255);
    assert!(EntityId(254).is_player(255));
    assert!(!EntityId(255).is_player(255));
    assert_eq!(EntityId(254).as_player_index(255), Some(254));
    assert_eq!(EntityId(300).as_player_index(400), Some(44));
}

#[test]
fn the_history_keeps_records_in_order() {
    let mut state = GameState::new(2, 1);
    assert_eq!(state.public.action_history.len(), 0);
    for index in 0..3u16 {
        let sequence = state.public.next_sequence();
        assert_eq!(sequence, index as u32);
        state.public.record_action(ActionRecord::new(
            PlayerId::new(0),
            Action::with_pointers(TemplateId::new(index), &[EntityId(5)]),
            1,
            sequence,
        ));
    }
    assert_eq!(state.public.action_history.len(), 3);
    assert_eq!(state.public.action_history[2].action.template, TemplateId::new(2));
    assert_eq!(state.public.action_history[0].sequence, 0);
    let copy = state.public.clone();
    assert_eq!(copy.action_history.len(), 3);
    assert_eq!(copy.known_hand_cards[PlayerId::new(1)].len(), 0);
}

#[test]
fn a_batch_of_samples_holds_no_sample_twice() {
    for (total, batch, expected) in [(10usize, 4usize, 4usize), (5, 5, 5), (3, 9, 3), (0, 4, 0), (7, 0, 0)] {
        let indices = sample_indices(total, batch, 11);
        assert_eq!(indices.len(), expected);
        let mut sorted = indices.clone();
        sorted.sort();
        sorted.dedup();
        assert_eq!(sorted.len(), expected);
        assert!(indices.iter().all(|index| *index < total));
        assert_eq!(indices, sample_indices(total, batch, 11));
    }
    assert_ne!(sample_indices(50, 10, 1), sample_indices(50, 10, 2));
}

#[test]
fn a_full_buffer_gives_up_its_oldest_record() {
    let mut buffer: ExperienceBuffer<Trajectory<u8, ()>> = ExperienceBuffer::new(2);
    assert!(buffer.is_empty());
    assert_eq!(buffer.capacity(), 2);
    for seed in 0..5u64 {
        let mut trajectory = Trajectory::new(seed, ());
        for step in 0..seed {
            trajectory.push(step as u8);
        }
        assert_eq!(trajectory.step_count() as u64, seed);
        buffer.push(trajectory);
    }
    assert_eq!(buffer.len(), 2);
    let seeds: Vec<u64> = buffer.iter().into_iter().map(|t| t.seed).collect();
    assert_eq!(seeds, vec![3, 4]);
    assert_eq!(buffer.total_steps(), 7);
    buffer.clear();
    assert_eq!(buffer.len(), 0);
    let mut unbounded: ExperienceBuffer<Trajectory<u8, ()>> = ExperienceBuffer::new(0);
    unbounded.push(Trajectory::new(1, ()));
    unbounded.push(Trajectory::new(2, ()));
    assert_eq!(unbounded.len(), 1);
    assert_eq!(unbounded.iter()[0].seed, 2);
}

#[test]
fn definitions_keep_their_attributes() {
    let card = CardDefinition::new(CardId::new(1), "Dragon", CardTypeId::new(2))
        .with_attr("power", 5)
        .with_attr("flying", true)
        .with_attr("text", "Breathes fire")
        .with_attr("power", 6i64);
    assert_eq!(card.get_int("power", 0), 6);
    assert_eq!(card.get_int("flying", 9), 9);
    assert!(card.get_bool("flying", false));
    assert_eq!(card.get_text("text"), Some("Breathes fire"));
    assert_eq!(card.get_text("power"), None);
    assert!(card.get_attr("toughness").is_none());
}

#[test]
fn a_built_game_gives_each_player_three_zones_and_a_life() {
    let (game, state) = SimpleGameBuilder::new()
        .player_count(3)
        .starting_life(7)
        .cards_per_player(6)
        .starting_hand_size(2)
        .build(11);
    assert_eq!(game.config().player_count, 3);
    assert_eq!(game.config().zones.len(), 9);
    assert_eq!(game.templates().draw, TemplateId::new(0));
    assert_eq!(game.templates().play, TemplateId::new(1));
    assert_eq!(game.templates().pass, TemplateId::new(2));
    for index in 0..3u8 {
        let player = PlayerId::new(index);
        let zones = game.player_zones(player);
        assert_eq!(zones.deck, ZoneId::new(3 * index as u16));
        assert_eq!(zones.hand, ZoneId::new(3 * index as u16 + 1));
        assert_eq!(zones.discard, ZoneId::new(3 * index as u16 + 2));
        assert_eq!(state.zones.zone_size(zones.deck), 4);
        assert_eq!(state.zones.zone_size(zones.hand), 2);
        assert_eq!(state.zones.zone_size(zones.discard), 0);
        assert_eq!(*state.public.hand_sizes.get(player), 2);
        assert_eq!(state.public.get_player_state(player, "life", 0), 7);
        assert!(game.is_alive(&state, player));
    }
    for id in 1..=5u32 {
        assert_eq!(game.card_power(CardId::new(id)), id as i64);
    }
    assert_eq!(game.card_power(CardId::new(6)), 0);
    assert_eq!(state.zones.total_cards(), 18);
}

#[test]
fn a_played_card_takes_its_power_from_the_target() {
    let (mut game, mut state) = SimpleGameBuilder::new().starting_life(3).build(5);
    let first = PlayerId::new(0);
    let second = PlayerId::new(1);
    let zones = *game.player_zones(first);
    let card = state.zones.cards_in_zone(zones.hand)[0];
    let power = game.card_power(state.get_card(card).unwrap().card_id);
    assert!(1 <= power && power <= 5);
    let play = Action::with_pointers(game.templates().play, &[card, EntityId::player(second)]);
    game.apply_action(&mut state, first, &play);
    assert_eq!(state.public.get_player_state(second, "life", 0), 3 - power);
    assert_eq!(state.public.get_player_state(first, "life", 0), 3);
    assert_eq!(*state.public.hand_sizes.get(first), 2);
    assert_eq!(state.zones.top_card(zones.discard), Some(card));
    assert_eq!(state.get_card(card).unwrap().zone, zones.discard);
    assert_eq!(state.public.action_history.len(), 1);
    if power >= 3 {
        assert_eq!(game.is_terminal(&state), Some(GameResult::Winner(first)));
        assert_eq!(state.public.active_player, first);
    } else {
        assert_eq!(game.is_terminal(&state), None);
        assert_eq!(state.public.active_player, second);
        assert!(state.public.has_priority(second));
    }
}

#[test]
fn an_action_that_cannot_be_taken_is_a_pass() {
    let (mut game, mut state) = SimpleGameBuilder::new().build(5);
    let first = PlayerId::new(0);
    let before_zones = state.zones.total_cards();
    let play = Action::with_pointers(game.templates().play, &[EntityId(900)]);
    game.apply_action(&mut state, first, &play);
    assert_eq!(state.zones.total_cards(), before_zones);
    assert_eq!(*state.public.hand_sizes.get(first), 3);
    assert_eq!(state.public.get_player_state(PlayerId::new(1), "life", 0), 20);
    assert_eq!(state.public.active_player, PlayerId::new(1));
    assert_eq!(state.public.action_history.len(), 1);
}

#[test]
fn a_move_of_an_entity_that_is_no_card_fails() {
    let mut state = GameState::new(2, 42);
    let context = SharedZones::new(ZoneId::new(0), ZoneId::new(1));
    let effect = Effect::move_to(ZoneId::new(2));
    let result = EffectResolver::resolve_single(&mut state, &effect, EntityId(99), &context);
    assert!(failed_with(&result, "Card not found"));
    assert_eq!(state.zones.total_cards(), 0);
    assert!(!state.zones.contains(EntityId(99)));
    let result = EffectResolver::resolve_single(&mut state, &effect, EntityId(1), &context);
    assert!(failed_with(&result, "Target is a player, not a card"));
}

#[test]
fn a_draw_keeps_hand_and_hand_size_together() {
    let (mut state, deck, hand) = zone_state();
    let context = SharedZones::new(deck, hand);
    let player = PlayerId::new(0);
    let result = EffectResolver::resolve_single(&mut state, &Effect::draw(2), EntityId(0), &context);
    assert!(matches!(result, ResolveResult::Success));
    assert_eq!(*state.public.hand_sizes.get(player), 2);
    assert_eq!(state.hand(player).to_vec(), vec![CardId::new(3), CardId::new(2)]);
    assert_eq!(state.zones.zone_size(deck), 1);
    assert_eq!(state.zones.zone_size(hand), 2);
    for other in 0..2u8 {
        let other = PlayerId::new(other);
        assert_eq!(*state.public.hand_sizes.get(other) as usize, state.hand(other).len());
    }
    let result = EffectResolver::resolve_single(&mut state, &Effect::draw(5), EntityId(0), &context);
    assert!(matches!(result, ResolveResult::Success));
    assert_eq!(*state.public.hand_sizes.get(player), 3);
    assert_eq!(state.hand(player).len(), 3);
    let result = EffectResolver::resolve_single(&mut state, &Effect::draw(1), EntityId(0), &context);
    assert!(failed_with(&result, "Deck was empty"));
    assert_eq!(*state.public.hand_sizes.get(player), 3);
    assert_eq!(state.hand(player).len(), 3);
}

#[test]
fn an_entity_that_is_no_card_moves_but_is_not_counted_in_hand() {
    let mut state = GameState::new(2, 7);
    let deck = ZoneId::new(0);
    let hand = ZoneId::new(1);
    state.zones.init_ordered_zone(deck);
    state.zones.add_to_zone(EntityId(50), deck, None);
    assert!(EffectResolver::draw_one(&mut state, PlayerId::new(0), deck, hand));
    assert_eq!(state.zones.get_zone(EntityId(50)), Some(hand));
    assert_eq!(*state.public.hand_sizes.get(PlayerId::new(0)), 0);
    assert_eq!(state.hand(PlayerId::new(0)).len(), 0);
}

#[test]
fn a_context_of_functions_answers_with_them() {
    let (mut state, deck, hand) = zone_state();
    let other_hand = ZoneId::new(5);
    let context = ZoneFns::new(
        move |_player: PlayerId| deck,
        move |player: PlayerId| if player.index() == 0 { hand } else { other_hand },
    );
    let result = EffectResolver::resolve_single(&mut state, &Effect::draw(1), EntityId(1), &context);
    assert!(matches!(result, ResolveResult::Success));
    assert_eq!(state.zones.zone_size(other_hand), 1);
    assert_eq!(*state.public.hand_sizes.get(PlayerId::new(1)), 1);
    let gated = Effect::Conditional {
        condition_key: "open".to_string(),
        effect: Box::new(Effect::set_player("seen", 1)),
    };
    let result = EffectResolver::resolve_single(&mut state, &gated, EntityId(0), &context);
    assert!(matches!(result, ResolveResult::Skipped));
    let context = context.with_condition_eval(|key: &str, state: &GameState| {
        key == "open" && state.public.turn_number == 1
    });
    let result = EffectResolver::resolve_single(&mut state, &gated, EntityId(0), &context);
    assert!(matches!(result, ResolveResult::Success));
    assert_eq!(state.public.get_player_state(PlayerId::new(0), "seen", 0), 1);
    state.public.advance_turn();
    let again = Effect::Conditional {
        condition_key: "open".to_string(),
        effect: Box::new(Effect::set_player("seen", 2)),
    };
    let result = EffectResolver::resolve_single(&mut state, &again, EntityId(0), &context);
    assert!(matches!(result, ResolveResult::Skipped));
    assert_eq!(state.public.get_player_state(PlayerId::new(0), "seen", 0), 1);
}

#[test]
fn the_words_of_a_stream_come_in_order() {
    let mut first = GameRng::new(31);
    let mut second = GameRng::new(31);
    let low = first.next_word() as u64;
    let high = first.next_word() as u64;
    assert_eq!(first.state().word_pos, 2);
    assert_eq!(second.next_words(), (high << 32) | low);
    assert_eq!(second.state().word_pos, 2);
    assert_eq!(first.gen_range_usize(0..1000), second.gen_range_usize(0..1000));
    assert_eq!(first.state(), second.state());
    let none: Vec<u8> = Vec::new();
    assert_eq!(first.choose_one(&none), None);
    assert_eq!(first.state(), second.state());
}

#[test]
fn a_hand_is_no_larger_than_the_deck_it_is_drawn_from() {
    let (game, state) = SimpleGameBuilder::new()
        .player_count(2)
        .starting_life(20)
        .cards_per_player(2)
        .starting_hand_size(3)
        .build(42);
    for index in 0..2u8 {
        let player = PlayerId::new(index);
        let zones = game.player_zones(player);
        assert_eq!(*state.public.hand_sizes.get(player), 2);
        assert_eq!(state.hand(player).len(), 2);
        assert_eq!(state.zones.zone_size(zones.deck), 0);
        assert_eq!(state.zones.zone_size(zones.hand), 2);
        assert_eq!(state.public.get_player_state(player, "life", 0), 20);
    }
    assert_eq!(state.zones.total_cards(), 4);
}
