# nezuko

A small async runtime whose decisions are proved with Verus.

- `src/` is the verified library: the ready queue, a task's future slot and
  its join slot (`task`), the one-shot channel's slot (`channel::oneshot`),
  the timer list and the `sleep` deadline (`time`), the reactor's one-shot
  socket registrations (`reactor`), the step functions of the TCP helpers
  (`net`), the doorbell's result (`wakeup`) and the error type (`error`).
  Each type's contract is stated over a mathematical view, and the laws the
  runtime relies on (first in first out, a finished task is never polled
  again, a result or a wake-up is never lost, registrations fire once, timers
  come due in order) are proved as public proof functions.
- `app/` is the runtime around it: worker and reactor threads, locks and
  condition variables, the futures, the clock, and the `libc` calls.
- `tests/` runs the library on concrete values.
