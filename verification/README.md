# bevy_zhuose_qi

Fire and laser shaders for Bevy, with their logic verified in Verus.

- `src/` is the verified library:
  - `layout`: the native-order byte encoding of a 32-bit word, written
    through Bevy's `Bytes`, and its injectivity;
  - `laser`: the laser material's 24-byte uniform layout;
  - `topdownfire`: the fire material's 28-byte uniform layout, the fire
    texture asset, the brush intensities, and `texture_index`, the
    bookkeeping that keeps track of which fire material samples which
    texture and decides which materials must be re-uploaded when a texture
    changes, kept in Bevy's hash map and hash set (`hashed` states what
    their methods do). Its laws (every tracked fire stays filed under its texture, a
    changed texture notifies all its fires, an unchanged modification is
    idle) are proof functions next to it.
- `app/` holds the Bevy side: plugins, bundles, render graph setup,
  the clock-driven animation systems, the ECS system that feeds asset events
  to the index, and the copies of the material types that carry Bevy's
  derives and hold colours and floats.
- `tests/` runs the library on concrete values.
