//! Gameplay core of a small 2D arena: a controlled actor moves on a bounded
//! field, fires projectiles behind a cooldown, and projectiles expire after a
//! fixed time to live. Time is counted in microseconds and lengths in
//! micro-units (a millionth of a field unit), so every rule is exact integer
//! arithmetic.
pub mod motion;
pub mod scene;
pub mod systems;
pub mod timer;
pub mod world;
