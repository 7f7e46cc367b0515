# system_monitor

A task manager for Linux and Windows desktops: processes, services, disks,
startup entries, launching a task, and CPU and temperature graphs.

`src/` is the library, verified with Verus: how service listings and
`.desktop` files are read, which command or file an action applies to,
how a command line is split, byte sizes in readable units, sorting and
filtering of the tables, histories, column widths and every text shown.

`app/` is the program around it: the FLTK window, and what reads or changes
the machine (`sysinfo`, running `systemctl` / `sc.exe`, the autostart
directories and the Windows registry).

`tests/` runs the library on concrete values.
