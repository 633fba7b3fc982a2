use vstd::prelude::*;

verus! {

/// Maximum length, in bytes, of a region name.
pub const MAX_REGION_LENGTH: usize = 100;

/// Maximum length, in bytes, of a player name.
pub const MAX_PLAYER_NAME_LENGTH: usize = 50;

/// Towers one player may own at a time.
pub const MAX_TOWERS_PER_PLAYER: usize = 20;

/// Ticks after which a wave is declared lost.
pub const MAX_GAME_TICKS: u64 = 10000;

/// Minimum time between two wave starts, in microseconds.
pub const WAVE_START_COOLDOWN_MICROS: u64 = 5_000_000;

/// The last wave of a game.
pub const MAX_WAVE_NUMBER: u32 = 100;

/// Placements one player may make per minute.
pub const PLACE_TOWER_RATE_LIMIT: u32 = 10;

/// Upgrades one player may make per minute.
pub const UPGRADE_TOWER_RATE_LIMIT: u32 = 20;

/// Refuses a string longer than `max_len` bytes, naming `field_name` in the message.
pub fn validate_string_length(s: &str, max_len: usize, field_name: &str) -> (r: Result<(), String>)
    ensures
        r.is_err() <==> s.len() > max_len,
{
    if s.len() > max_len {
        let mut message = field_name.to_owned();
        message.append(" exceeds maximum length of ");
        message.append(max_len.to_string().as_str());
        return Err(message);
    }
    Ok(())
}

/// Refuses a wave start less than the cooldown after the previous one.
pub fn validate_wave_timing(last_wave_time: u64, current_time: u64) -> (r: Result<(), &'static str>)
    ensures
        r.is_err() <==> current_time >= last_wave_time && current_time - last_wave_time
            < WAVE_START_COOLDOWN_MICROS || current_time < last_wave_time,
{
    let elapsed = current_time.saturating_sub(last_wave_time);
    if elapsed < WAVE_START_COOLDOWN_MICROS {
        return Err("Please wait before starting next wave");
    }
    Ok(())
}

/// Whether a game has run for too many ticks.
pub fn should_timeout(tick_count: u64) -> (r: bool)
    ensures
        r == (tick_count >= MAX_GAME_TICKS),
{
    tick_count >= MAX_GAME_TICKS
}

/// Refuses a wave number past the last wave.
pub fn validate_wave_number(wave: u32) -> (r: Result<(), &'static str>)
    ensures
        r.is_err() <==> wave > MAX_WAVE_NUMBER,
{
    if wave > MAX_WAVE_NUMBER {
        return Err("Maximum wave limit reached. Victory!");
    }
    Ok(())
}

} // verus!
