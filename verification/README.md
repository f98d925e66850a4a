# telemetry-host

Sends processor temperature and load, memory and GPU load, and the weather outside to a board, one
line at a time, and runs the commands that the board sends back.

    telemetry-host                            # 192.168.1.200:9000, every second
    telemetry-host 192.168.1.200:9000         # another destination
    telemetry-host 192.168.1.200:9000 500     # destination and interval in milliseconds

- `src/` is the verified library: it reads the kernel's and the services' texts, decides what to do
  next, and writes the lines. It works on texts, bytes and integers.
- `app/` is the program around it: files, processes, sockets, threads and floating point.
- `tests/` runs the library on concrete values.

A number that comes out of a text is handed on as the text of that number, checked to be one; the
program turns it into a floating-point value.
