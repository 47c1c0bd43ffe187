# xp_macroquad

A small vertical space shooter written with macroquad, split in two.

- `src/` is the verified library: the enemy kinds and their pixel sizes,
  the texture of each kind, the high-score board and the choice of its best
  entry, and the decisions that each screen (main menu, play, pause, game
  over, name input) takes from the keys pressed and the events of a frame.
- `app/` is the game around it: loading assets, the frame loop, drawing,
  sound, reading and writing `highscore.ron`, and the geometry of ships and
  lasers, which works on floating-point coordinates.

The shaders `starfield-shader.glsl` and `vertex_shader.glsl` are read from
the `assets` folder at start-up, next to the textures and sounds.
