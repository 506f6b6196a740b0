# starve-not

Keep the slowest stage of a pipeline busy, without letting work pile up.

Say your program downloads items and then runs them through a GPU. The GPU is the expensive
part, the *bottleneck*, and the whole pipeline only goes as fast as it does. So how many items
should be on their way at once? With too few, the GPU sits idle waiting for downloads. With too
many, memory fills up, and on shutdown you wait a long time for everything already started to
finish. The right number changes while the program runs, so this library keeps adjusting it.

- A **`Gate`** sits at the start of the pipeline and lets items in, up to a *limit*. Each item
  gets a **`Ticket`** that travels with it and goes back when the item is done.
- An **`IdleProbe`** on the bottleneck measures how long it waits for input.
- Every couple of seconds, a **`Pacer`** looks at both, asks a **`Policy`** what the limit should
  be, and sets it. Lowering the limit never interrupts work already inside.

Three policies are included. **`DrainBounded`** doubles the limit while the bottleneck waits for
input and lowers it when the work inside would take too long to finish. **`Aimd`** works like TCP
and needs no probe. **`Fixed`** never changes the limit.

## Layout

- `src/` is the library, written in Verus and proved. Nothing in it waits, sleeps or reads a
  clock: each call takes what has happened and says what follows.
  - `gate`, `ledger`, `permits` and `bell`: gates and tickets, the account that a gate keeps with
    its laws, the tokio semaphore behind it, and the bell that those who wait listen for and that
    tells one gate from another.
  - `probe` and `sample`: idle times, and the samples that policies judge from.
  - `policy`: the policies. `drain_model` says what `DrainBounded` is to do step by step,
    `drain_laws` what holds of it whatever it is shown, and `window` what it measures over.
  - `pacer`: sampling, deciding and setting the limit.
  - `time`, `binary64` and `rounding`: durations and moments, and IEEE 754 binary64 arithmetic in
    integers, each operation proved to give the nearest number.
- `app/` is what waits, shares and reads the clock: gates that tasks wait at, tickets that go back
  when dropped, probes on the system clock, and a pacer that runs as a tokio task.
- `tests/` runs the library: the policy against simulated pipelines, the numbers against the
  machine's own, and each part step by step.
