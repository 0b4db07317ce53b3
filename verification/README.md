# test_ssh

Helpers for downloading a remote directory tree over SSH, with their behaviour
stated in contracts and proved by Verus.

- `src/` is the verified library:
  - `listing`: the `find -printf` command that lists a remote directory and the
    reading of its output into entries (links are reported as files; each link
    whose line carries a target gets a probe command);
  - `text`: splitting text exactly as `str::split` does, and building strings;
  - `utils`: path encoding for the C API (zero bytes refused, backslashes turned
    into slashes) and libssh2's error messages;
  - `scp`: what to do on each request of an SCP receive session, and which local
    directory and file each request leads to;
  - `transfer`: chunked reads of a file of known size, and reads of command output;
  - `display`: the text forms of entries and error codes.
- `app/` is the program: the SSH sessions (libssh, libssh2, ssh2, thrussh),
  the file system, and the FFI, driving the library's decisions. It reads the
  server's host, user and password from `SSH_HOST`, `SSH_USER` and `SSH_PASSWORD`.
- `tests/` runs the library on concrete values.
