# focusd

A daemon that sends a list of distracting sites to the local machine through the hosts file
for a set period of time, and a client to start, query and halt it.

- `src/` is the verified library: the time texts (`1h30m` and back), the hosts-file block,
  the daemon's request handling, the client's messages, and the text written to and read
  back from the pid file, each with
  its contract, together with the proved laws that relate them.
- `app/` is the program around it: command-line parsing, the pipes and files, the
  MessagePack encoding of the messages and the TOML configuration.
- `tests/` runs the library on concrete cases.
