# kaduox-ssh

The core of an SSH client, verified with Verus: what it decides is stated in
contracts and proved; what it reads, sends and writes stands around it.

- `src/` is the library. It holds the host library and its text form, OpenSSH
  client configuration with `Include` and `Match`, remote commands, the pool of
  connections, host keys and certificates, forwarded ports, SFTP transfers and
  synchronization, and the protocol between a per-user daemon and its clients.
  It does no input or output: facts about files, hosts and time are arguments,
  and where it needs one it does not have, it says which.
- `tests/` runs the library on values.
- `app/` is the daemon, with everything that touches the network, the disk, the
  environment and the clock.

Paths are text with `/` between the parts; only the places where a platform
keeps a user's files are told in the platform's own way. Times are integers. An error is an
enumeration; where it speaks of something, that something comes with it as text.
