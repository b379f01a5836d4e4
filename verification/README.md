# msh

A command shell whose programs ask for capabilities. Its core is a library verified with Verus;
the program around it reads messages, prints, and makes system calls.

- `src/` holds what the shell decides and computes, each function with its contract. Texts are
  modelled as sequences of characters, messages as sequences of bytes, and the loops of the shell
  as steps from a state and a message to the next state and an action.
- `src/*_laws.rs` prove what holds across functions, such as that a written command line is read
  back token by token, that a request for a capability survives its encoding, and that nothing is
  granted without the consent of the capability service.
- `tests/` runs the library on concrete values.
- `app/` is the program.

What is trusted and not proved is listed in `src/text.rs` (functions of the standard library on
strings and characters) and `src/system.rs` (the error numbers of `mochi-user-syscall`).
