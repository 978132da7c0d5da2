# portico

Manages SSH port forwardings described in a YAML file and shows them in a
terminal interface.

- `src/` is the verified library: the configuration model with its timeout
  defaults (`config`), the monitor's registry of servers, forwardings and
  local ports (`monitor`), the ssh command line of a forwarding and `~`
  resolution of key paths, with password sign-in through `sshpass` (`ssh`),
  the reading of the kernel's socket tables into the ports that processes
  listen on (`procnet`), decimal numerals (`text`), and the
  interface's key handling, row selection and table texts (`tui`).
- `app/` is the program: argument parsing, reading the file, starting and
  stopping ssh processes, the update thread and the drawing of the screen.
