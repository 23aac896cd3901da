# npu_runtime

A verified runtime for compiled schedules on the STM32N6 Neural-ART
accelerator. It checks a model's weight image in flash, plans where its blobs
go and how they are relocated, decides every step of a dispatch, and computes
the CPU-side operators. Every function carries a contract that Verus proves, and
nothing in it is trusted.

* `src/` is the library. It touches no hardware: a `Preparation` says what the
  container loader has to do next, a `Dispatch` says what the device has to do
  next, and both are told what came of it.
* `app/` is the board side: the memory-mapped flash, the container loader, the
  caches, the accelerator driver, blobs included as files, and the
  floating-point source coordinates of the resize operator.
* `tests/` runs the library on concrete values.

Public proof functions whose names start with `law_` state what holds across
functions: a sector that reads entirely as erased flash is caught, relocated
blobs share no cache line, every op of a schedule runs once and is counted once,
the two depth operators undo each other, interpolation never leaves the range of
its corners.
