# zephyr

The logic of the Zephyr side-scroller, verified with Verus, and the game
around it.

- `src/` is the verified library:
  - `asset_manager`: a reference-counted texture registry keyed by path,
    with its load queue. Its contracts speak of the abstract `AssetTable`,
    and the `law_*` proof functions state what the operations keep and undo.
  - `level_loader`: which backdrop sprites a level shows, in which order and
    on which layers, and the cleaning of `../` out of texture paths.
  - `systems::render`: the stable, layer-by-layer drawing order.
  - `systems::input`: pilot keys to ship commands.
  - `systems::movement`: sprite-sheet cell of the tilt animation.
  - `components`: render layers and the animation state.
- `app/` is the game: the window, input, file loading, XML parsing, the
  entity world, and the floating-point physics, camera and drawing.
- `tests/` run the library on concrete values.
