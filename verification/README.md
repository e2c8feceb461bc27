# render_backend

The backend of a retained-mode renderer.  Documents send it fonts, images, display lists and
stacking contexts; it turns them into a scene, finds out what a frame needs, and hands batches and
ordered draw commands to whoever owns the graphics device.

`src/` is the library, verified with Verus.  `app/` runs it: channels, worker threads,
single-precision arithmetic, and the traits behind which the texture cache, the culling tree, the
clipper and the fonts stand.  `tests/` runs the library on concrete scenes.

## How a frame comes about

| step | modules |
| --- | --- |
| messages, tables, the state of the backend | `backend`, `run`, `lists`, `tables` |
| sorting draw lists into painting phases | `phases` |
| flattening stacking contexts and iframes | `scene`, `flatten` |
| textures for targets, places in the culling tree | `tree` |
| what visible nodes need, and bringing it to the device | `resources`, `images`, `uploads` |
| what is drawn of a node, in which order | `items`, `steps`, `plan` |
| the figures that are drawn | `shapes`, `picture`, `border`, `shadow` |
| batches and draw commands | `batch`, `builder`, `compile` |
| the frame | `visible`, `frame` |

Modules whose names end in `_laws` hold what is true of several of these together.

## Numbers

The library computes with no floating-point numbers.  A `Scalar` is a bit pattern; comparing two of
them and taking the whole part of one is decided on the bits.  Sums, products and the like are kept
as expressions (`Length`) and as a table of transforms, each made from earlier ones, for `app/` to
evaluate operation by operation.

## Trust

Hash tables use the hasher of the `fnv` crate.  The functions in `tables` that call them are the only
ones whose contracts are believed rather than proved.
