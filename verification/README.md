# work_break

A work and rest time balancer. It keeps a log of work periods, sums it up
into the current strain, the work of the day and the rest taken, and decides
what to report and when to notify.

- `src/activities.rs`: the log of work periods, switching between work and
  rest, dropping the periods of earlier days, and what these keep.
- `src/summary.rs`: summing the log up with a break formula that the caller
  brings, and what every summary satisfies.
- `src/app.rs`: the phases, the status report, the start of the work day and
  the decision when to notify.
- `src/text.rs`: numbers in decimal.
- `app/`: the program around the library: the floating-point break formula,
  the configuration and state files, the clock, desktop notifications and the
  local socket.
