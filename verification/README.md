# assignment_2_solution

A distributed block device. Every sector is an (N, N) atomic register kept by a
fixed set of processes; clients and processes exchange commands authenticated
with HMAC-SHA256.

- `src/` is the verified library (Verus): the wire format (`transfer`), message
  tags (`auth`), the register's state machine (`atomic_register`), all processes
  of a sector and their messages with the law of the register
  (`register_system`), where the sectors manager keeps data and metadata
  (`sectors_manager`, `metadata_laws`), the
  per-sector scheduling of commands (`commands_executor`), the register
  client's decisions (`register_client`) and what a process does with the bytes
  that arrive (`run_register_process`).
- `app/` runs the processes with tokio: TCP connections, files, tasks, and the
  bincode encoding of a register's durable state.
- `tests/` exercises the library.
